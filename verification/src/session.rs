//! Persistent named sessions: which names are acceptable, and the state file
//! that records how to reattach to (or tear down) a running session.
//!
//! The state file is a list of `key=value` lines. Writing a state and
//! reading the file back gives the same state
//! (`lemma_state_file_round_trip`).

use vstd::prelude::*;
use crate::text::{
    chars_of, decimal, index_of, lines, parse_unsigned, parse_unsigned_chars, push_chars,
    push_decimal, push_str, split_lines, string_from_chars, sub_chars, chars_eq_str, find_char, views,
    pieces, strip_cr, lemma_pieces_nonempty, lemma_index_of, lemma_parse_decimal,
    lemma_decimal_digits,
};

verus! {

/// Everything needed to reattach to (or tear down) a running session.
pub struct State {
    pub display: u8,
    pub width: u32,
    pub height: u32,
    pub xvfb_pid: u32,
    pub jwm_pid: Option<u32>,
    pub pulse_sink: Option<String>,
    pub pulse_server: Option<String>,
}

/// What to do for a named-session invocation.
pub enum Role {
    /// No live session by that name: spawn a fresh display.
    Create,
    /// A live session exists: attach to its display without spawning anything.
    Attach(State),
}

/// Mathematical model of a [`State`].
pub struct StateModel {
    pub display: nat,
    pub width: nat,
    pub height: nat,
    pub xvfb_pid: nat,
    pub jwm_pid: Option<nat>,
    pub pulse_sink: Option<Seq<char>>,
    pub pulse_server: Option<Seq<char>>,
}

pub open spec fn opt_nat(o: Option<u32>) -> Option<nat> {
    match o {
        Some(v) => Some(v as nat),
        None => None,
    }
}

pub open spec fn opt_text(o: Option<String>) -> Option<Seq<char>> {
    match o {
        Some(s) => Some(s@),
        None => None,
    }
}

impl State {
    pub open spec fn model(&self) -> StateModel {
        StateModel {
            display: self.display as nat,
            width: self.width as nat,
            height: self.height as nat,
            xvfb_pid: self.xvfb_pid as nat,
            jwm_pid: opt_nat(self.jwm_pid),
            pulse_sink: opt_text(self.pulse_sink),
            pulse_server: opt_text(self.pulse_server),
        }
    }
}

// ----------------------------------------------------------------------------
// Session names
// ----------------------------------------------------------------------------

/// A character allowed in a session name.
pub open spec fn name_char(c: char) -> bool {
    ||| 'a' <= c <= 'z'
    ||| 'A' <= c <= 'Z'
    ||| '0' <= c <= '9'
    ||| c == '-'
    ||| c == '_'
}

/// A session name: 1 to 64 characters, each an ASCII letter or digit, `-`
/// or `_`.
pub open spec fn is_valid_name(s: Seq<char>) -> bool {
    &&& 0 < s.len() <= 64
    &&& forall|i: int| 0 <= i < s.len() ==> name_char(#[trigger] s[i])
}

/// Session names become file names, so they are restricted to a safe
/// character set (no path separators, no traversal).
pub fn valid_name(name: &str) -> (b: bool)
    ensures
        b == is_valid_name(name@),
{
    let v = chars_of(name);
    if v.len() == 0 {
        return false;
    }
    let mut i: usize = 0;
    while i < v.len()
        invariant
            i <= v.len(),
            v@ == name@,
            forall|j: int| 0 <= j < i ==> name_char(#[trigger] v@[j]),
        decreases v.len() - i,
    {
        let c: char = v[i];
        let ok: bool = ('a' <= c && c <= 'z') || ('A' <= c && c <= 'Z') || ('0' <= c && c <= '9')
            || c == '-' || c == '_';
        if !ok {
            assert(!name_char(v@[i as int]));
            return false;
        }
        i = i + 1;
    }
    v.len() <= 64
}

/// A valid session name holds no path separator and no `.`, so it can
/// neither name another directory nor climb out of the sessions directory.
pub proof fn lemma_valid_name_is_plain_file_name(s: Seq<char>)
    requires
        is_valid_name(s),
    ensures
        forall|i: int| 0 <= i < s.len() ==> #[trigger] s[i] != '/' && s[i] != '\\' && s[i] != '.',
        s.len() > 0,
{
}

/// The code points allowed in a session name: `0`-`9`, `A`-`Z`, `a`-`z`,
/// `-` and `_`.
pub open spec fn name_code(u: u32) -> bool {
    ||| 0x30 <= u <= 0x39
    ||| 0x41 <= u <= 0x5a
    ||| 0x61 <= u <= 0x7a
    ||| u == 0x2d
    ||| u == 0x5f
}

/// A session name is exactly a string of 1 to 64 characters drawn from the
/// ASCII letters and digits, `-` and `_`.
pub proof fn lemma_valid_name_charset(s: Seq<char>)
    ensures
        is_valid_name(s) <==> (0 < s.len() <= 64 && forall|i: int| 0 <= i < s.len() ==> name_code(#[trigger] s[i] as u32)),
{
    assert forall|i: int| 0 <= i < s.len() implies name_char(#[trigger] s[i]) == name_code(s[i] as u32) by {
        lemma_name_char_code(s[i]);
    }
}

proof fn lemma_name_char_code(c: char)
    ensures
        name_char(c) == name_code(c as u32),
{
}

/// File name (within the sessions directory) of the named session's state.
pub fn state_file_name(name: &str) -> (s: String)
    ensures
        s@ == name@ + ".session"@,
{
    let mut v = chars_of(name);
    push_str(&mut v, ".session");
    string_from_chars(&v)
}

// ----------------------------------------------------------------------------
// State file contents
// ----------------------------------------------------------------------------

/// `key=value`.
pub open spec fn key_value(key: Seq<char>, value: Seq<char>) -> Seq<char> {
    key + seq!['='] + value
}

/// Lines, each terminated by `'\n'`.
pub open spec fn joined(ls: Seq<Seq<char>>) -> Seq<char>
    decreases ls.len(),
{
    if ls.len() == 0 {
        Seq::empty()
    } else {
        joined(ls.drop_last()) + ls.last() + seq!['\n']
    }
}

/// The lines of the state file for `m`, in order.
pub open spec fn state_lines(m: StateModel) -> Seq<Seq<char>> {
    let base = Seq::<Seq<char>>::empty().push(key_value("display"@, decimal(m.display))).push(
        key_value("width"@, decimal(m.width)),
    ).push(key_value("height"@, decimal(m.height))).push(
        key_value("xvfb_pid"@, decimal(m.xvfb_pid)),
    );
    let a = match m.jwm_pid {
        Some(j) => base.push(key_value("jwm_pid"@, decimal(j))),
        None => base,
    };
    let b = match m.pulse_sink {
        Some(s) => a.push(key_value("pulse_sink"@, s)),
        None => a,
    };
    match m.pulse_server {
        Some(s) => b.push(key_value("pulse_server"@, s)),
        None => b,
    }
}

/// The state file for `m`.
pub open spec fn state_text(m: StateModel) -> Seq<char> {
    joined(state_lines(m))
}

fn push_line(out: &mut Vec<char>, key: &str, value: &Vec<char>)
    ensures
        final(out)@ == old(out)@ + key_value(key@, value@) + seq!['\n'],
{
    push_str(out, key);
    out.push('=');
    push_chars(out, value);
    out.push('\n');
    assert(out@ =~= old(out)@ + key_value(key@, value@) + seq!['\n']);
}

fn push_number_line(out: &mut Vec<char>, key: &str, n: u32)
    ensures
        final(out)@ == old(out)@ + key_value(key@, decimal(n as nat)) + seq!['\n'],
{
    let mut digits: Vec<char> = Vec::new();
    push_decimal(&mut digits, n as u64);
    assert(digits@ =~= decimal(n as nat));
    push_line(out, key, &digits);
}

/// The contents of the state file recording `state`.
pub fn state_file_contents(state: &State) -> (s: String)
    ensures
        s@ == state_text(state.model()),
{
    let ghost m = state.model();
    let mut out: Vec<char> = Vec::new();
    let ghost ls0 = Seq::<Seq<char>>::empty();
    assert(joined(ls0) == Seq::<char>::empty());
    push_number_line(&mut out, "display", state.display as u32);
    let ghost ls1 = ls0.push(key_value("display"@, decimal(m.display)));
    assert(ls1.drop_last() == ls0);
    assert(out@ =~= joined(ls1));
    push_number_line(&mut out, "width", state.width);
    let ghost ls2 = ls1.push(key_value("width"@, decimal(m.width)));
    assert(ls2.drop_last() == ls1);
    assert(out@ =~= joined(ls2));
    push_number_line(&mut out, "height", state.height);
    let ghost ls3 = ls2.push(key_value("height"@, decimal(m.height)));
    assert(ls3.drop_last() == ls2);
    assert(out@ =~= joined(ls3));
    push_number_line(&mut out, "xvfb_pid", state.xvfb_pid);
    let ghost ls4 = ls3.push(key_value("xvfb_pid"@, decimal(m.xvfb_pid)));
    assert(ls4.drop_last() == ls3);
    assert(out@ =~= joined(ls4));
    let ghost mut ls = ls4;
    if let Some(j) = state.jwm_pid {
        push_number_line(&mut out, "jwm_pid", j);
        proof {
            let nl = ls.push(key_value("jwm_pid"@, decimal(j as nat)));
            assert(nl.drop_last() == ls);
            ls = nl;
        }
        assert(out@ =~= joined(ls));
    }
    if let Some(s) = &state.pulse_sink {
        let v = chars_of(s.as_str());
        push_line(&mut out, "pulse_sink", &v);
        proof {
            let nl = ls.push(key_value("pulse_sink"@, s@));
            assert(nl.drop_last() == ls);
            ls = nl;
        }
        assert(out@ =~= joined(ls));
    }
    if let Some(s) = &state.pulse_server {
        let v = chars_of(s.as_str());
        push_line(&mut out, "pulse_server", &v);
        proof {
            let nl = ls.push(key_value("pulse_server"@, s@));
            assert(nl.drop_last() == ls);
            ls = nl;
        }
        assert(out@ =~= joined(ls));
    }
    assert(ls == state_lines(m));
    string_from_chars(&out)
}


// ----------------------------------------------------------------------------
// Reading a state file back
// ----------------------------------------------------------------------------

/// The fields collected so far while reading a state file.
pub struct Fields {
    pub display: Option<nat>,
    pub width: Option<nat>,
    pub height: Option<nat>,
    pub xvfb_pid: Option<nat>,
    pub jwm_pid: Option<nat>,
    pub pulse_sink: Option<Seq<char>>,
    pub pulse_server: Option<Seq<char>>,
}

pub open spec fn no_fields() -> Fields {
    Fields {
        display: None,
        width: None,
        height: None,
        xvfb_pid: None,
        jwm_pid: None,
        pulse_sink: None,
        pulse_server: None,
    }
}

/// The effect of one line: a line without `=` or with an unknown key is
/// ignored; a known key sets its field, numeric values through
/// `str::parse` (a value that does not parse clears the field).
pub open spec fn apply_line(f: Fields, line: Seq<char>) -> Fields {
    let i = index_of(line, '=');
    if i < 0 {
        f
    } else {
        let k = line.take(i);
        let v = line.skip(i + 1);
        if k == "display"@ {
            Fields { display: parse_unsigned(v, 255), ..f }
        } else if k == "width"@ {
            Fields { width: parse_unsigned(v, 0xffff_ffff), ..f }
        } else if k == "height"@ {
            Fields { height: parse_unsigned(v, 0xffff_ffff), ..f }
        } else if k == "xvfb_pid"@ {
            Fields { xvfb_pid: parse_unsigned(v, 0xffff_ffff), ..f }
        } else if k == "jwm_pid"@ {
            Fields { jwm_pid: parse_unsigned(v, 0xffff_ffff), ..f }
        } else if k == "pulse_sink"@ {
            Fields { pulse_sink: Some(v), ..f }
        } else if k == "pulse_server"@ {
            Fields { pulse_server: Some(v), ..f }
        } else {
            f
        }
    }
}

/// The fields after reading `ls` in order.
pub open spec fn read_lines(ls: Seq<Seq<char>>) -> Fields
    decreases ls.len(),
{
    if ls.len() == 0 {
        no_fields()
    } else {
        apply_line(read_lines(ls.drop_last()), ls.last())
    }
}

/// The state a file's contents describe: present when the display, width,
/// height and Xvfb pid were all read.
pub open spec fn state_of_text(contents: Seq<char>) -> Option<StateModel> {
    let f = read_lines(lines(contents));
    if f.display is Some && f.width is Some && f.height is Some && f.xvfb_pid is Some {
        Some(
            StateModel {
                display: f.display->0,
                width: f.width->0,
                height: f.height->0,
                xvfb_pid: f.xvfb_pid->0,
                jwm_pid: f.jwm_pid,
                pulse_sink: f.pulse_sink,
                pulse_server: f.pulse_server,
            },
        )
    } else {
        None
    }
}

struct FieldsAcc {
    display: Option<u64>,
    width: Option<u64>,
    height: Option<u64>,
    xvfb_pid: Option<u64>,
    jwm_pid: Option<u64>,
    pulse_sink: Option<Vec<char>>,
    pulse_server: Option<Vec<char>>,
}

spec fn opt_u64(o: Option<u64>) -> Option<nat> {
    match o {
        Some(v) => Some(v as nat),
        None => None,
    }
}

spec fn opt_chars(o: Option<Vec<char>>) -> Option<Seq<char>> {
    match o {
        Some(v) => Some(v@),
        None => None,
    }
}

impl FieldsAcc {
    spec fn model(&self) -> Fields {
        Fields {
            display: opt_u64(self.display),
            width: opt_u64(self.width),
            height: opt_u64(self.height),
            xvfb_pid: opt_u64(self.xvfb_pid),
            jwm_pid: opt_u64(self.jwm_pid),
            pulse_sink: opt_chars(self.pulse_sink),
            pulse_server: opt_chars(self.pulse_server),
        }
    }

    spec fn bounded(&self) -> bool {
        &&& self.display matches Some(d) ==> d <= 255
        &&& self.width matches Some(d) ==> d <= u32::MAX
        &&& self.height matches Some(d) ==> d <= u32::MAX
        &&& self.xvfb_pid matches Some(d) ==> d <= u32::MAX
        &&& self.jwm_pid matches Some(d) ==> d <= u32::MAX
    }

    fn apply(&mut self, line: &Vec<char>)
        requires
            old(self).bounded(),
        ensures
            final(self).bounded(),
            final(self).model() == apply_line(old(self).model(), line@),
    {
        let found = find_char(line.as_slice(), '=');
        match found {
            None => {},
            Some(i) => {
                let k = sub_chars(line, 0, i);
                let v = sub_chars(line, i + 1, line.len());
                assert(k@ == line@.take(i as int));
                assert(v@ == line@.skip(i + 1));
                if chars_eq_str(&k, "display") {
                    self.display = parse_unsigned_chars(v.as_slice(), 255);
                } else if chars_eq_str(&k, "width") {
                    self.width = parse_unsigned_chars(v.as_slice(), 0xffff_ffff);
                } else if chars_eq_str(&k, "height") {
                    self.height = parse_unsigned_chars(v.as_slice(), 0xffff_ffff);
                } else if chars_eq_str(&k, "xvfb_pid") {
                    self.xvfb_pid = parse_unsigned_chars(v.as_slice(), 0xffff_ffff);
                } else if chars_eq_str(&k, "jwm_pid") {
                    self.jwm_pid = parse_unsigned_chars(v.as_slice(), 0xffff_ffff);
                } else if chars_eq_str(&k, "pulse_sink") {
                    self.pulse_sink = Some(v);
                } else if chars_eq_str(&k, "pulse_server") {
                    self.pulse_server = Some(v);
                }
            },
        }
    }
}

fn narrow_u32(v: u64) -> (r: u32)
    requires
        v <= u32::MAX,
    ensures
        r == v,
{
    v as u32
}

fn opt_string(o: Option<Vec<char>>) -> (r: Option<String>)
    ensures
        opt_text(r) == opt_chars(o),
{
    match o {
        Some(v) => Some(string_from_chars(&v)),
        None => None,
    }
}

/// Reads a state file's contents. Lines without `=` and unknown keys are
/// skipped; later lines override earlier ones; `None` unless the display,
/// width, height and Xvfb pid are all present and parse.
pub fn parse(contents: &str) -> (r: Option<State>)
    ensures
        match r {
            Some(st) => state_of_text(contents@) == Some(st.model()),
            None => state_of_text(contents@) is None,
        },
{
    let chars = chars_of(contents);
    let ls = split_lines(&chars);
    let mut acc = FieldsAcc {
        display: None,
        width: None,
        height: None,
        xvfb_pid: None,
        jwm_pid: None,
        pulse_sink: None,
        pulse_server: None,
    };
    let mut i: usize = 0;
    while i < ls.len()
        invariant
            i <= ls.len(),
            acc.bounded(),
            acc.model() == read_lines(views(ls@).take(i as int)),
        decreases ls.len() - i,
    {
        acc.apply(&ls[i]);
        i = i + 1;
        assert(views(ls@).take(i as int).drop_last() =~= views(ls@).take(i - 1));
    }
    assert(views(ls@).take(ls.len() as int) =~= views(ls@));
    let FieldsAcc { display, width, height, xvfb_pid, jwm_pid, pulse_sink, pulse_server } = acc;
    match (display, width, height, xvfb_pid) {
        (Some(d), Some(w), Some(h), Some(x)) => {
            let jwm = match jwm_pid {
                Some(j) => Some(narrow_u32(j)),
                None => None,
            };
            let st = State {
                display: d as u8,
                width: narrow_u32(w),
                height: narrow_u32(h),
                xvfb_pid: narrow_u32(x),
                jwm_pid: jwm,
                pulse_sink: opt_string(pulse_sink),
                pulse_server: opt_string(pulse_server),
            };
            Some(st)
        },
        _ => None,
    }
}


// ----------------------------------------------------------------------------
// Writing then reading gives the state back
// ----------------------------------------------------------------------------

/// A value that survives a line-oriented file: no line break inside and no
/// carriage return at its end.
pub open spec fn line_safe(v: Seq<char>) -> bool {
    &&& forall|i: int| 0 <= i < v.len() ==> #[trigger] v[i] != '\n'
    &&& !(v.len() > 0 && v.last() == '\r')
}

pub open spec fn opt_line_safe(o: Option<Seq<char>>) -> bool {
    match o {
        Some(v) => line_safe(v),
        None => true,
    }
}

proof fn lemma_pieces_append_line(x: Seq<char>, l: Seq<char>)
    requires
        forall|i: int| 0 <= i < l.len() ==> #[trigger] l[i] != '\n',
    ensures
        pieces(x + l) == pieces(x).update(pieces(x).len() - 1, pieces(x).last() + l),
    decreases l.len(),
{
    lemma_pieces_nonempty(x);
    if l.len() == 0 {
        assert(x + l == x);
        assert(pieces(x).last() + l == pieces(x).last());
        assert(pieces(x).update(pieces(x).len() - 1, pieces(x).last()) =~= pieces(x));
    } else {
        let l0 = l.drop_last();
        let c = l.last();
        assert(l[l.len() - 1] != '\n');
        assert forall|i: int| 0 <= i < l0.len() implies #[trigger] l0[i] != '\n' by {
            assert(l0[i] == l[i]);
        }
        lemma_pieces_append_line(x, l0);
        let px = pieces(x);
        let n = px.len() - 1;
        assert((x + l).drop_last() == x + l0);
        assert((x + l).last() == c);
        assert(c != '\n');
        let pp = pieces(x + l0);
        assert(pp == px.update(n, px.last() + l0));
        assert(pp.len() == px.len());
        assert(pp.last() == px.last() + l0);
        assert((px.last() + l0).push(c) =~= px.last() + l);
        assert(pieces(x + l) == pp.update(n, pp.last().push(c)));
        assert(pieces(x + l) =~= pieces(x).update(pieces(x).len() - 1, pieces(x).last() + l));
    }
}

proof fn lemma_pieces_of_joined(ls: Seq<Seq<char>>)
    requires
        forall|k: int| 0 <= k < ls.len() ==> line_safe(#[trigger] ls[k]),
    ensures
        pieces(joined(ls)) == ls.push(Seq::<char>::empty()),
    decreases ls.len(),
{
    if ls.len() == 0 {
        assert(pieces(Seq::<char>::empty()) =~= ls.push(Seq::<char>::empty()));
    } else {
        let rest = ls.drop_last();
        let l = ls.last();
        assert(line_safe(ls[ls.len() - 1]));
        assert forall|k: int| 0 <= k < rest.len() implies line_safe(#[trigger] rest[k]) by {
            assert(rest[k] == ls[k]);
        }
        lemma_pieces_of_joined(rest);
        let x = joined(rest);
        lemma_pieces_append_line(x, l);
        let y = x + l;
        assert(joined(ls) == y + seq!['\n']);
        assert((y + seq!['\n']).drop_last() == y);
        assert((y + seq!['\n']).last() == '\n');
        assert(Seq::<char>::empty() + l == l);
        assert(pieces(y) =~= ls);
    }
}

proof fn lemma_lines_of_joined(ls: Seq<Seq<char>>)
    requires
        forall|k: int| 0 <= k < ls.len() ==> line_safe(#[trigger] ls[k]),
    ensures
        lines(joined(ls)) == ls,
{
    lemma_pieces_of_joined(ls);
    if ls.len() > 0 {
        let t = joined(ls);
        assert(t == joined(ls.drop_last()) + ls.last() + seq!['\n']);
        assert(t.len() > 0 && t.last() == '\n');
        assert(ls.push(Seq::<char>::empty()).drop_last() == ls);
        assert forall|k: int| 0 <= k < ls.len() implies strip_cr(#[trigger] ls[k]) == ls[k] by {
            assert(line_safe(ls[k]));
        }
        assert(ls.map_values(|l: Seq<char>| strip_cr(l)) =~= ls);
    } else {
        assert(joined(ls) == Seq::<char>::empty());
    }
}

proof fn lemma_key_value_split(key: Seq<char>, value: Seq<char>)
    requires
        forall|i: int| 0 <= i < key.len() ==> #[trigger] key[i] != '=',
    ensures
        index_of(key_value(key, value), '=') == key.len(),
        key_value(key, value).take(key.len() as int) == key,
        key_value(key, value).skip(key.len() as int + 1) == value,
{
    let s = key_value(key, value);
    lemma_index_of(s, '=');
    assert(s[key.len() as int] == '=');
    let i = index_of(s, '=');
    if i >= 0 && i < key.len() {
        assert(s[i] == key[i]);
    }
    assert(s.take(key.len() as int) =~= key);
    assert(s.skip(key.len() as int + 1) =~= value);
}

proof fn lemma_line_safe_key_value(key: Seq<char>, value: Seq<char>)
    requires
        line_safe(value),
        forall|i: int| 0 <= i < key.len() ==> #[trigger] key[i] != '\n',
    ensures
        line_safe(key_value(key, value)),
{
    let s = key_value(key, value);
    assert forall|i: int| 0 <= i < s.len() implies #[trigger] s[i] != '\n' by {
        if i < key.len() {
            assert(s[i] == key[i]);
        } else if i > key.len() {
            assert(s[i] == value[i - key.len() - 1]);
        }
    }
    if value.len() > 0 {
        assert(s.last() == value.last());
    }
}

proof fn lemma_decimal_line_safe(n: nat)
    ensures
        line_safe(decimal(n)),
        forall|i: int| 0 <= i < decimal(n).len() ==> '0' <= #[trigger] decimal(n)[i] <= '9',
        decimal(n).len() > 0,
{
    lemma_decimal_digits(n);
    assert(decimal(n).last() == decimal(n)[decimal(n).len() - 1]);
}

proof fn lemma_read_push(ls: Seq<Seq<char>>, l: Seq<char>)
    ensures
        read_lines(ls.push(l)) == apply_line(read_lines(ls), l),
{
    assert(ls.push(l).drop_last() == ls);
}

proof fn lemma_keys()
    ensures
        forall|i: int| 0 <= i < "display"@.len() ==> #[trigger] "display"@[i] != '=' && "display"@[i] != '\n',
        forall|i: int| 0 <= i < "width"@.len() ==> #[trigger] "width"@[i] != '=' && "width"@[i] != '\n',
        forall|i: int| 0 <= i < "height"@.len() ==> #[trigger] "height"@[i] != '=' && "height"@[i] != '\n',
        forall|i: int| 0 <= i < "xvfb_pid"@.len() ==> #[trigger] "xvfb_pid"@[i] != '=' && "xvfb_pid"@[i] != '\n',
        forall|i: int| 0 <= i < "jwm_pid"@.len() ==> #[trigger] "jwm_pid"@[i] != '=' && "jwm_pid"@[i] != '\n',
        forall|i: int| 0 <= i < "pulse_sink"@.len() ==> #[trigger] "pulse_sink"@[i] != '=' && "pulse_sink"@[i] != '\n',
        forall|i: int| 0 <= i < "pulse_server"@.len() ==> #[trigger] "pulse_server"@[i] != '=' && "pulse_server"@[i] != '\n',
        "display"@ != "width"@,
        "display"@ != "height"@,
        "display"@ != "xvfb_pid"@,
        "display"@ != "jwm_pid"@,
        "display"@ != "pulse_sink"@,
        "display"@ != "pulse_server"@,
        "width"@ != "height"@,
        "width"@ != "xvfb_pid"@,
        "width"@ != "jwm_pid"@,
        "width"@ != "pulse_sink"@,
        "width"@ != "pulse_server"@,
        "height"@ != "xvfb_pid"@,
        "height"@ != "jwm_pid"@,
        "height"@ != "pulse_sink"@,
        "height"@ != "pulse_server"@,
        "xvfb_pid"@ != "jwm_pid"@,
        "xvfb_pid"@ != "pulse_sink"@,
        "xvfb_pid"@ != "pulse_server"@,
        "jwm_pid"@ != "pulse_sink"@,
        "jwm_pid"@ != "pulse_server"@,
        "pulse_sink"@ != "pulse_server"@,
{
    reveal_strlit("display");
    reveal_strlit("width");
    reveal_strlit("height");
    reveal_strlit("xvfb_pid");
    reveal_strlit("jwm_pid");
    reveal_strlit("pulse_sink");
    reveal_strlit("pulse_server");
    assert("display"@[0] != "width"@[0]);
    assert("display"@[0] != "xvfb_pid"@[0]);
    assert("display"@[0] != "jwm_pid"@[0]);
    assert("display"@[0] != "pulse_sink"@[0]);
    assert("display"@[0] != "pulse_server"@[0]);
    assert("width"@[0] != "height"@[0]);
    assert("width"@[0] != "xvfb_pid"@[0]);
    assert("width"@[0] != "jwm_pid"@[0]);
    assert("width"@[0] != "pulse_sink"@[0]);
    assert("width"@[0] != "pulse_server"@[0]);
    assert("height"@[0] != "xvfb_pid"@[0]);
    assert("height"@[0] != "jwm_pid"@[0]);
    assert("height"@[0] != "pulse_sink"@[0]);
    assert("height"@[0] != "pulse_server"@[0]);
    assert("display"@[0] != "height"@[0]);
    assert("xvfb_pid"@[0] != "jwm_pid"@[0]);
    assert("xvfb_pid"@[0] != "pulse_sink"@[0]);
    assert("xvfb_pid"@[0] != "pulse_server"@[0]);
    assert("jwm_pid"@[0] != "pulse_sink"@[0]);
    assert("jwm_pid"@[0] != "pulse_server"@[0]);
    assert("pulse_sink"@.len() != "pulse_server"@.len());
}

proof fn lemma_number_line(key: Seq<char>, n: nat, max: nat)
    requires
        n <= max,
        forall|i: int| 0 <= i < key.len() ==> #[trigger] key[i] != '=' && key[i] != '\n',
    ensures
        index_of(key_value(key, decimal(n)), '=') == key.len(),
        key_value(key, decimal(n)).take(key.len() as int) == key,
        parse_unsigned(key_value(key, decimal(n)).skip(key.len() as int + 1), max) == Some(n),
        line_safe(key_value(key, decimal(n))),
{
    lemma_decimal_line_safe(n);
    lemma_parse_decimal(n, max);
    lemma_key_value_split(key, decimal(n));
    lemma_line_safe_key_value(key, decimal(n));
}

proof fn lemma_text_line(key: Seq<char>, v: Seq<char>)
    requires
        line_safe(v),
        forall|i: int| 0 <= i < key.len() ==> #[trigger] key[i] != '=' && key[i] != '\n',
    ensures
        index_of(key_value(key, v), '=') == key.len(),
        key_value(key, v).take(key.len() as int) == key,
        key_value(key, v).skip(key.len() as int + 1) == v,
        line_safe(key_value(key, v)),
{
    lemma_key_value_split(key, v);
    lemma_line_safe_key_value(key, v);
}

/// Writing a state file and reading it back gives the same state, whenever
/// the recorded sink and server names hold no line break and do not end in a
/// carriage return.
pub proof fn lemma_state_file_round_trip(st: State)
    requires
        opt_line_safe(st.model().pulse_sink),
        opt_line_safe(st.model().pulse_server),
    ensures
        state_of_text(state_text(st.model())) == Some(st.model()),
{
    let m = st.model();
    lemma_keys();
    let l1 = key_value("display"@, decimal(m.display));
    let l2 = key_value("width"@, decimal(m.width));
    let l3 = key_value("height"@, decimal(m.height));
    let l4 = key_value("xvfb_pid"@, decimal(m.xvfb_pid));
    lemma_number_line("display"@, m.display, 255);
    lemma_number_line("width"@, m.width, 0xffff_ffff);
    lemma_number_line("height"@, m.height, 0xffff_ffff);
    lemma_number_line("xvfb_pid"@, m.xvfb_pid, 0xffff_ffff);
    let b0 = Seq::<Seq<char>>::empty();
    let b1 = b0.push(l1);
    let b2 = b1.push(l2);
    let b3 = b2.push(l3);
    let base = b3.push(l4);
    lemma_read_push(b0, l1);
    lemma_read_push(b1, l2);
    lemma_read_push(b2, l3);
    lemma_read_push(b3, l4);
    assert(read_lines(b0) == no_fields());
    let f4 = read_lines(base);
    assert(f4.display == Some(m.display) && f4.width == Some(m.width) && f4.height == Some(m.height)
        && f4.xvfb_pid == Some(m.xvfb_pid) && f4.jwm_pid is None && f4.pulse_sink is None
        && f4.pulse_server is None);
    let a = match m.jwm_pid {
        Some(j) => base.push(key_value("jwm_pid"@, decimal(j))),
        None => base,
    };
    match m.jwm_pid {
        Some(j) => {
            lemma_number_line("jwm_pid"@, j, 0xffff_ffff);
            lemma_read_push(base, key_value("jwm_pid"@, decimal(j)));
        },
        None => {},
    }
    let fa = read_lines(a);
    assert(fa.display == f4.display && fa.width == f4.width && fa.height == f4.height
        && fa.xvfb_pid == f4.xvfb_pid && fa.jwm_pid == m.jwm_pid && fa.pulse_sink is None
        && fa.pulse_server is None);
    let b = match m.pulse_sink {
        Some(v) => a.push(key_value("pulse_sink"@, v)),
        None => a,
    };
    match m.pulse_sink {
        Some(v) => {
            lemma_text_line("pulse_sink"@, v);
            lemma_read_push(a, key_value("pulse_sink"@, v));
        },
        None => {},
    }
    let fb = read_lines(b);
    assert(fb.display == f4.display && fb.width == f4.width && fb.height == f4.height
        && fb.xvfb_pid == f4.xvfb_pid && fb.jwm_pid == m.jwm_pid && fb.pulse_sink == m.pulse_sink
        && fb.pulse_server is None);
    let c = match m.pulse_server {
        Some(v) => b.push(key_value("pulse_server"@, v)),
        None => b,
    };
    match m.pulse_server {
        Some(v) => {
            lemma_text_line("pulse_server"@, v);
            lemma_read_push(b, key_value("pulse_server"@, v));
        },
        None => {},
    }
    let fc = read_lines(c);
    assert(fc.display == f4.display && fc.width == f4.width && fc.height == f4.height
        && fc.xvfb_pid == f4.xvfb_pid && fc.jwm_pid == m.jwm_pid && fc.pulse_sink == m.pulse_sink
        && fc.pulse_server == m.pulse_server);
    assert(c == state_lines(m));
    assert forall|k: int| 0 <= k < c.len() implies line_safe(#[trigger] c[k]) by {
        if k < b.len() {
            assert(c[k] == b[k]);
            if k < a.len() {
                assert(b[k] == a[k]);
                if k < base.len() {
                    assert(a[k] == base[k]);
                    if k < b3.len() {
                        assert(base[k] == b3[k]);
                        if k < b2.len() {
                            assert(b3[k] == b2[k]);
                            if k < b1.len() {
                                assert(b2[k] == b1[k]);
                            }
                        }
                    }
                }
            }
        }
    }
    lemma_lines_of_joined(c);
}


// ----------------------------------------------------------------------------
// Listing sessions
// ----------------------------------------------------------------------------

/// The session whose state file is called `file`: the name before a final
/// `.session` extension, when there is a non-empty one.
pub open spec fn session_of_file(file: Seq<char>) -> Option<Seq<char>> {
    if file.len() > 8 && file.skip(file.len() - 8) == ".session"@ {
        Some(file.take(file.len() - 8))
    } else {
        None
    }
}

/// The state file written for a session lists as that session again.
pub proof fn lemma_state_file_lists_as_session(name: Seq<char>)
    requires
        name.len() > 0,
    ensures
        session_of_file(name + ".session"@) == Some(name),
{
    reveal_strlit(".session");
    let f = name + ".session"@;
    assert(f.skip(f.len() - 8) =~= ".session"@);
    assert(f.take(f.len() - 8) =~= name);
}

/// The sessions named by the files `files`, in their order.
pub open spec fn sessions_of(files: Seq<Seq<char>>) -> Seq<Seq<char>>
    decreases files.len(),
{
    if files.len() == 0 {
        Seq::empty()
    } else {
        let rest = sessions_of(files.drop_last());
        match session_of_file(files.last()) {
            Some(n) => rest.push(n),
            None => rest,
        }
    }
}

/// `a` sorts before `b` or equals it: compared character by character,
/// by code point, a proper prefix first (the order of `String`).
pub open spec fn lex_le(a: Seq<char>, b: Seq<char>) -> bool
    decreases a.len(),
{
    if a.len() == 0 {
        true
    } else if b.len() == 0 {
        false
    } else if (a[0] as u32) != (b[0] as u32) {
        (a[0] as u32) < (b[0] as u32)
    } else {
        lex_le(a.drop_first(), b.drop_first())
    }
}

/// `names` is in ascending order.
pub open spec fn sorted_names(names: Seq<Seq<char>>) -> bool {
    forall|i: int, j: int| 0 <= i < j < names.len() ==> lex_le(#[trigger] names[i], #[trigger] names[j])
}

proof fn lemma_lex_total(a: Seq<char>, b: Seq<char>)
    ensures
        lex_le(a, b) || lex_le(b, a),
    decreases a.len(),
{
    if a.len() > 0 && b.len() > 0 && (a[0] as u32) == (b[0] as u32) {
        lemma_lex_total(a.drop_first(), b.drop_first());
    }
}

proof fn lemma_lex_trans(a: Seq<char>, b: Seq<char>, c: Seq<char>)
    requires
        lex_le(a, b),
        lex_le(b, c),
    ensures
        lex_le(a, c),
    decreases a.len(),
{
    if a.len() > 0 && b.len() > 0 && c.len() > 0 && (a[0] as u32) == (b[0] as u32) && (b[0] as u32) == (c[0] as u32) {
        lemma_lex_trans(a.drop_first(), b.drop_first(), c.drop_first());
    }
}

fn name_le(a: &Vec<char>, b: &Vec<char>) -> (r: bool)
    ensures
        r == lex_le(a@, b@),
{
    let mut i: usize = 0;
    assert(a@.skip(0) =~= a@);
    assert(b@.skip(0) =~= b@);
    while i < a.len() && i < b.len() && (a[i] as u32) == (b[i] as u32)
        invariant
            i <= a.len(),
            i <= b.len(),
            lex_le(a@, b@) == lex_le(a@.skip(i as int), b@.skip(i as int)),
        decreases a.len() - i,
    {
        assert(a@.skip(i as int).drop_first() =~= a@.skip(i + 1));
        assert(b@.skip(i as int).drop_first() =~= b@.skip(i + 1));
        i = i + 1;
    }
    if i == a.len() {
        true
    } else if i == b.len() {
        false
    } else {
        (a[i] as u32) < (b[i] as u32)
    }
}

fn session_of(file: &str) -> (r: Option<Vec<char>>)
    ensures
        match r {
            Some(v) => session_of_file(file@) == Some(v@),
            None => session_of_file(file@) is None,
        },
{
    let v = chars_of(file);
    let n = v.len();
    if n <= 8 {
        return None;
    }
    let ext = sub_chars(&v, n - 8, n);
    assert(ext@ =~= file@.skip(file@.len() - 8));
    if chars_eq_str(&ext, ".session") {
        let name = sub_chars(&v, 0, n - 8);
        assert(name@ =~= file@.take(file@.len() - 8));
        Some(name)
    } else {
        None
    }
}

/// The sessions that the state files among `files` (file names in the
/// sessions directory) belong to, in ascending order.
pub fn session_names(files: &Vec<String>) -> (names: Vec<String>)
    ensures
        sorted_names(names@.map_values(|n: String| n@)),
        names@.map_values(|n: String| n@).to_multiset() == sessions_of(files@.map_values(|f: String| f@)).to_multiset(),
{
    broadcast use vstd::seq_lib::group_to_multiset_ensures;
    let ghost fv = files@.map_values(|f: String| f@);
    let mut out: Vec<Vec<char>> = Vec::new();
    let mut i: usize = 0;
    assert(fv.take(0) =~= Seq::<Seq<char>>::empty());
    assert(out@.map_values(|n: Vec<char>| n@) =~= Seq::<Seq<char>>::empty());
    while i < files.len()
        invariant
            i <= files.len(),
            fv == files@.map_values(|f: String| f@),
            sorted_names(out@.map_values(|n: Vec<char>| n@)),
            out@.map_values(|n: Vec<char>| n@).to_multiset() == sessions_of(fv.take(i as int)).to_multiset(),
        decreases files.len() - i,
    {
        let ghost prev = out@.map_values(|n: Vec<char>| n@);
        assert(fv.take(i + 1).drop_last() =~= fv.take(i as int));
        assert(fv.take(i + 1).last() == files@[i as int]@);
        let ghost before_sessions = sessions_of(fv.take(i as int));
        proof {
            before_sessions.to_multiset_ensures();
        }
        match session_of(files[i].as_str()) {
            Some(name) => {
                assert(sessions_of(fv.take(i + 1)) == before_sessions.push(name@));
                let mut p: usize = 0;
                while p < out.len() && name_le(&out[p], &name)
                    invariant
                        p <= out.len(),
                        prev == out@.map_values(|n: Vec<char>| n@),
                        forall|k: int| 0 <= k < p ==> lex_le(#[trigger] prev[k], name@),
                    decreases out.len() - p,
                {
                    p = p + 1;
                }
                let ghost nv = name@;
                out.insert(p, name);
                let ghost now = out@.map_values(|n: Vec<char>| n@);
                assert(now =~= prev.insert(p as int, nv));
                proof {
                    if p < prev.len() {
                        lemma_lex_total(prev[p as int], nv);
                    }
                    assert forall|b: int| p < b < now.len() implies lex_le(nv, #[trigger] now[b]) by {
                        assert(now[b] == prev[b - 1]);
                        if b > p + 1 {
                            assert(lex_le(prev[p as int], prev[b - 1]));
                            lemma_lex_trans(nv, prev[p as int], prev[b - 1]);
                        }
                    }
                    assert forall|a: int, b: int| 0 <= a < b < now.len() implies lex_le(
                        #[trigger] now[a],
                        #[trigger] now[b],
                    ) by {
                        if b < p {
                            assert(now[a] == prev[a] && now[b] == prev[b]);
                        } else if b == p {
                            assert(now[a] == prev[a]);
                        } else if a < p {
                            assert(now[a] == prev[a]);
                            assert(lex_le(nv, now[b]));
                            lemma_lex_trans(now[a], nv, now[b]);
                        } else if a == p {
                            assert(lex_le(nv, now[b]));
                        } else {
                            assert(now[a] == prev[a - 1] && now[b] == prev[b - 1]);
                        }
                    }
                    assert(now.remove(p as int) =~= prev);
                    assert(now[p as int] == nv);
                    now.to_multiset_ensures();
                    prev.to_multiset_ensures();
                    assert(now.remove(p as int).to_multiset() =~= now.to_multiset().remove(nv));
                    assert(now.contains(nv));
                    assert(now.to_multiset().count(nv) > 0);
                    assert(now.to_multiset() =~= prev.to_multiset().insert(nv));
                }
            },
            None => {
                assert(sessions_of(fv.take(i + 1)) == before_sessions);
            },
        }
        i = i + 1;
    }
    assert(fv.take(files.len() as int) =~= fv);
    let mut names: Vec<String> = Vec::new();
    let mut j: usize = 0;
    while j < out.len()
        invariant
            j <= out.len(),
            names.len() == j,
            forall|k: int| 0 <= k < j ==> (#[trigger] names@[k])@ == out@[k]@,
        decreases out.len() - j,
    {
        let n = string_from_chars(&out[j]);
        names.push(n);
        j = j + 1;
    }
    assert(names@.map_values(|n: String| n@) =~= out@.map_values(|n: Vec<char>| n@));
    names
}

} // verus!
