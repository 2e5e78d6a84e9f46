//! Character-level helpers shared by the encoders and parsers: decimal
//! rendering and parsing of unsigned integers, Unicode white space, line
//! splitting and trimming, all specified over `Seq<char>`.

use vstd::prelude::*;

verus! {

/// The ASCII digit for `d` (which must be below ten).
pub open spec fn digit_char(d: nat) -> char {
    ((d + 48) as u32) as char
}

/// Decimal rendering of `n`, most significant digit first, no leading zeros.
pub open spec fn decimal(n: nat) -> Seq<char>
    decreases n,
{
    if n < 10 {
        seq![digit_char(n)]
    } else {
        decimal(n / 10).push(digit_char(n % 10))
    }
}

/// Appends the decimal rendering of `n` to `out`.
pub fn push_decimal(out: &mut Vec<char>, n: u64)
    ensures
        final(out)@ == old(out)@ + decimal(n as nat),
{
    let mut digits: Vec<char> = Vec::new();
    let mut m: u64 = n;
    loop
        invariant_except_break
            m <= n,
            decimal(n as nat) == decimal(m as nat) + digits@,
        ensures
            decimal(n as nat) == digits@,
        decreases m,
    {
        let d: u64 = m % 10;
        let c: char = char_of_digit(d);
        let ghost before = digits@;
        digits.insert(0, c);
        assert(digits@ == seq![c] + before);
        if m < 10 {
            assert(decimal(m as nat) == seq![c]);
            break;
        }
        assert(decimal(m as nat) == decimal((m / 10) as nat).push(c));
        assert(decimal((m / 10) as nat).push(c) + before == decimal((m / 10) as nat) + digits@);
        m = m / 10;
    }
    let mut i: usize = 0;
    while i < digits.len()
        invariant
            0 <= i <= digits.len(),
            out@ == old(out)@ + digits@.take(i as int),
        decreases digits.len() - i,
    {
        out.push(digits[i]);
        i = i + 1;
        assert(digits@.take(i as int) == digits@.take(i - 1) .push(digits@[i - 1]));
    }
    assert(digits@.take(digits.len() as int) == digits@);
}

fn char_of_digit(d: u64) -> (c: char)
    requires
        d < 10,
    ensures
        c == digit_char(d as nat),
{
    if d == 0 { '0' } else if d == 1 { '1' } else if d == 2 { '2' } else if d == 3 { '3' }
    else if d == 4 { '4' } else if d == 5 { '5' } else if d == 6 { '6' } else if d == 7 { '7' }
    else if d == 8 { '8' } else { '9' }
}


/// The ASCII bytes of an ASCII character sequence.
pub open spec fn ascii_bytes(s: Seq<char>) -> Seq<u8> {
    s.map_values(|c: char| c as u8)
}

/// True when every character is ASCII.
pub open spec fn all_ascii(s: Seq<char>) -> bool {
    forall|i: int| 0 <= i < s.len() ==> (#[trigger] s[i]) < 128
}

/// The characters of `s`, in order.
pub fn chars_of(s: &str) -> (v: Vec<char>)
    ensures
        v@ == s@,
{
    let n: usize = s.unicode_len();
    let mut v: Vec<char> = Vec::new();
    let mut i: usize = 0;
    while i < n
        invariant
            n == s@.len(),
            i <= n,
            v@ == s@.take(i as int),
        decreases n - i,
    {
        v.push(s.get_char(i));
        i = i + 1;
        assert(v@ == s@.take(i as int));
    }
    assert(s@.take(n as int) == s@);
    v
}

/// Appends the characters of `s` to `out`.
pub fn push_str(out: &mut Vec<char>, s: &str)
    ensures
        final(out)@ == old(out)@ + s@,
{
    let n: usize = s.unicode_len();
    let mut i: usize = 0;
    while i < n
        invariant
            n == s@.len(),
            i <= n,
            out@ == old(out)@ + s@.take(i as int),
        decreases n - i,
    {
        out.push(s.get_char(i));
        i = i + 1;
        assert(old(out)@ + s@.take(i as int) == (old(out)@ + s@.take(i - 1)).push(s@[i - 1]));
    }
    assert(s@.take(n as int) == s@);
}

/// Appends all of `src` to `out`.
pub fn push_chars(out: &mut Vec<char>, src: &Vec<char>)
    ensures
        final(out)@ == old(out)@ + src@,
{
    let mut i: usize = 0;
    while i < src.len()
        invariant
            i <= src.len(),
            out@ == old(out)@ + src@.take(i as int),
        decreases src.len() - i,
    {
        out.push(src[i]);
        i = i + 1;
        assert(old(out)@ + src@.take(i as int) == (old(out)@ + src@.take(i - 1)).push(src@[i - 1]));
    }
    assert(src@.take(src.len() as int) == src@);
}

/// Appends the ASCII bytes of `src` (which must be ASCII) to `out`.
pub fn push_ascii(out: &mut Vec<u8>, src: &Vec<char>)
    requires
        all_ascii(src@),
    ensures
        final(out)@ == old(out)@ + ascii_bytes(src@),
{
    let mut i: usize = 0;
    while i < src.len()
        invariant
            i <= src.len(),
            all_ascii(src@),
            out@ == old(out)@ + ascii_bytes(src@.take(i as int)),
        decreases src.len() - i,
    {
        let c: char = src[i];
        assert(src@[i as int] < 128);
        out.push(ascii_byte(c));
        i = i + 1;
        assert(ascii_bytes(src@.take(i as int)) == ascii_bytes(src@.take(i - 1)).push(src@[i - 1] as u8));
    }
    assert(src@.take(src.len() as int) == src@);
}

fn ascii_byte(c: char) -> (b: u8)
    requires
        c < 128,
    ensures
        b == c as u8,
{
    let u: u32 = c as u32;
    u as u8
}

/// A `String` holding exactly the characters of `v`.
#[verifier::external_body]
pub fn string_from_chars(v: &Vec<char>) -> (s: String)
    ensures
        s@ == v@,
{
    v.iter().collect()
}

/// Unicode `White_Space`, the set that `char::is_whitespace`, `str::trim`
/// and `str::split_whitespace` use.
pub open spec fn is_white_space(c: char) -> bool {
    let u = c as u32;
    ||| 0x09 <= u <= 0x0d
    ||| u == 0x20
    ||| u == 0x85
    ||| u == 0xa0
    ||| u == 0x1680
    ||| 0x2000 <= u <= 0x200a
    ||| u == 0x2028
    ||| u == 0x2029
    ||| u == 0x202f
    ||| u == 0x205f
    ||| u == 0x3000
}

pub fn white_space(c: char) -> (b: bool)
    ensures
        b == is_white_space(c),
{
    let u: u32 = c as u32;
    (0x09 <= u && u <= 0x0d) || u == 0x20 || u == 0x85 || u == 0xa0 || u == 0x1680 || (0x2000
        <= u && u <= 0x200a) || u == 0x2028 || u == 0x2029 || u == 0x202f || u == 0x205f || u
        == 0x3000
}

/// `s` without leading white space.
pub open spec fn trim_start(s: Seq<char>) -> Seq<char>
    decreases s.len(),
{
    if s.len() > 0 && is_white_space(s[0]) {
        trim_start(s.drop_first())
    } else {
        s
    }
}

/// `s` without trailing white space.
pub open spec fn trim_end(s: Seq<char>) -> Seq<char>
    decreases s.len(),
{
    if s.len() > 0 && is_white_space(s.last()) {
        trim_end(s.drop_last())
    } else {
        s
    }
}

/// `s` without leading or trailing white space, as `str::trim` gives it.
pub open spec fn trim(s: Seq<char>) -> Seq<char> {
    trim_end(trim_start(s))
}

proof fn lemma_trim_start_is_suffix(s: Seq<char>, i: int)
    requires
        0 <= i <= s.len(),
        forall|j: int| 0 <= j < i ==> is_white_space(#[trigger] s[j]),
    ensures
        trim_start(s) == trim_start(s.skip(i)),
    decreases i,
{
    if i > 0 {
        assert(is_white_space(s[0]));
        assert(s.drop_first().skip(i - 1) == s.skip(i));
        lemma_trim_start_is_suffix(s.drop_first(), i - 1);
    } else {
        assert(s.skip(0) == s);
    }
}

proof fn lemma_trim_end_is_prefix(s: Seq<char>, k: int)
    requires
        0 <= k <= s.len(),
        forall|j: int| k <= j < s.len() ==> is_white_space(#[trigger] s[j]),
    ensures
        trim_end(s) == trim_end(s.take(k)),
    decreases s.len() - k,
{
    if k < s.len() {
        assert(is_white_space(s.last()));
        assert(s.drop_last().take(k) == s.take(k));
        lemma_trim_end_is_prefix(s.drop_last(), k);
    } else {
        assert(s.take(k) == s);
    }
}

/// `v` without leading or trailing white space.
pub fn trim_chars(v: &Vec<char>) -> (r: Vec<char>)
    ensures
        r@ == trim(v@),
{
    let n: usize = v.len();
    let mut i: usize = 0;
    while i < n && white_space(v[i])
        invariant
            n == v.len(),
            i <= n,
            forall|j: int| 0 <= j < i ==> is_white_space(#[trigger] v@[j]),
        decreases n - i,
    {
        i = i + 1;
    }
    proof {
        lemma_trim_start_is_suffix(v@, i as int);
        let t = v@.skip(i as int);
        if t.len() > 0 {
            assert(t[0] == v@[i as int]);
        }
    }
    let ghost t = v@.skip(i as int);
    assert(trim_start(v@) == t);
    let mut k: usize = n;
    while k > i && white_space(v[k - 1])
        invariant
            n == v.len(),
            i <= k <= n,
            forall|j: int| k <= j < n ==> is_white_space(#[trigger] v@[j]),
        decreases k,
    {
        k = k - 1;
    }
    proof {
        let kk = k - i;
        assert forall|j: int| kk <= j < t.len() implies is_white_space(#[trigger] t[j]) by {
            assert(t[j] == v@[j + i]);
        }
        lemma_trim_end_is_prefix(t, kk);
        let u = t.take(kk);
        if u.len() > 0 {
            assert(u.last() == v@[k - 1]);
        }
    }
    let mut r: Vec<char> = Vec::new();
    let mut j: usize = i;
    while j < k
        invariant
            n == v.len(),
            i <= j <= k <= n,
            r@ == v@.subrange(i as int, j as int),
        decreases k - j,
    {
        r.push(v[j]);
        j = j + 1;
        assert(r@ == v@.subrange(i as int, j as int));
    }
    assert(r@ == t.take(k - i));
    r
}


/// The pieces of `s` between `'\n'` characters (always at least one piece).
pub open spec fn pieces(s: Seq<char>) -> Seq<Seq<char>>
    decreases s.len(),
{
    if s.len() == 0 {
        seq![Seq::<char>::empty()]
    } else if s.last() == '\n' {
        pieces(s.drop_last()).push(Seq::<char>::empty())
    } else {
        let p = pieces(s.drop_last());
        p.update(p.len() - 1, p.last().push(s.last()))
    }
}

/// `l` without one trailing carriage return.
pub open spec fn strip_cr(l: Seq<char>) -> Seq<char> {
    if l.len() > 0 && l.last() == '\r' {
        l.drop_last()
    } else {
        l
    }
}

/// The lines of `s` as `str::lines` yields them: split at `'\n'`, a
/// terminated line loses one trailing `'\r'`, and a final line ending is
/// optional.
pub open spec fn lines(s: Seq<char>) -> Seq<Seq<char>> {
    if s.len() == 0 {
        Seq::empty()
    } else if s.last() == '\n' {
        pieces(s).drop_last().map_values(|l: Seq<char>| strip_cr(l))
    } else {
        let p = pieces(s);
        p.drop_last().map_values(|l: Seq<char>| strip_cr(l)).push(p.last())
    }
}

pub proof fn lemma_pieces_nonempty(s: Seq<char>)
    ensures
        pieces(s).len() >= 1,
    decreases s.len(),
{
    if s.len() > 0 {
        lemma_pieces_nonempty(s.drop_last());
    }
}

/// The view of a vector of lines.
pub open spec fn views(v: Seq<Vec<char>>) -> Seq<Seq<char>> {
    v.map_values(|l: Vec<char>| l@)
}

/// Splits `s` into its lines.
pub fn split_lines(s: &Vec<char>) -> (r: Vec<Vec<char>>)
    ensures
        views(r@) == lines(s@),
{
    let mut done: Vec<Vec<char>> = Vec::new();
    let mut cur: Vec<char> = Vec::new();
    let mut i: usize = 0;
    while i < s.len()
        invariant
            i <= s.len(),
            pieces(s@.take(i as int)) == views(done@).push(cur@),
        decreases s.len() - i,
    {
        let c: char = s[i];
        let ghost pre = s@.take(i as int);
        assert(s@.take(i + 1) == pre.push(c));
        assert(s@.take(i + 1).drop_last() == pre);
        if c == '\n' {
            let finished = cur;
            let ghost before = done@;
            done.push(finished);
            cur = Vec::new();
            assert(views(done@) =~= views(before).push(finished@));
        } else {
            cur.push(c);
            assert(views(done@).push(cur@) == pieces(pre).update(pieces(pre).len() - 1,
                pieces(pre).last().push(c)));
        }
        i = i + 1;
    }
    assert(s@.take(s.len() as int) == s@);
    let ends_with_newline: bool = s.len() > 0 && s[s.len() - 1] == '\n';
    let mut out: Vec<Vec<char>> = Vec::new();
    let mut j: usize = 0;
    while j < done.len()
        invariant
            j <= done.len(),
            views(out@) == views(done@).take(j as int).map_values(|l: Seq<char>| strip_cr(l)),
        decreases done.len() - j,
    {
        let mut l: Vec<char> = done[j].clone();
        if l.len() > 0 && l[l.len() - 1] == '\r' {
            l.pop();
        }
        assert(l@ == strip_cr(done@[j as int]@));
        let ghost before = out@;
        let ghost lv = l@;
        out.push(l);
        j = j + 1;
        assert(views(out@) =~= views(before).push(lv));
        assert(views(done@).take(j as int) =~= views(done@).take(j - 1).push(done@[j - 1]@));
        assert(views(out@) =~= views(done@).take(j as int).map_values(|l: Seq<char>| strip_cr(l)));
    }
    assert(views(done@).take(done.len() as int) == views(done@));
    assert(pieces(s@).drop_last() == views(done@));
    if s.len() > 0 && !ends_with_newline {
        out.push(cur);
    }
    out
}


/// Index of the first `c` in `s`, or `-1`.
pub open spec fn index_of(s: Seq<char>, c: char) -> int
    decreases s.len(),
{
    if s.len() == 0 {
        -1
    } else if s[0] == c {
        0
    } else {
        let r = index_of(s.drop_first(), c);
        if r < 0 {
            -1
        } else {
            r + 1
        }
    }
}

pub proof fn lemma_index_of(s: Seq<char>, c: char)
    ensures
        -1 <= index_of(s, c) < s.len(),
        index_of(s, c) >= 0 ==> s[index_of(s, c)] == c,
        forall|j: int|
            0 <= j < s.len() && (index_of(s, c) < 0 || j < index_of(s, c)) ==> #[trigger] s[j]
                != c,
    decreases s.len(),
{
    if s.len() > 0 && s[0] != c {
        lemma_index_of(s.drop_first(), c);
        assert forall|j: int|
            0 <= j < s.len() && (index_of(s, c) < 0 || j < index_of(s, c)) implies #[trigger] s[j]
            != c by {
            if j > 0 {
                assert(s[j] == s.drop_first()[j - 1]);
            }
        }
    }
}

/// Position of the first `c` in `v`, as `index_of` specifies it.
pub fn find_char(v: &[char], c: char) -> (r: Option<usize>)
    ensures
        match r {
            Some(i) => index_of(v@, c) == i as int && i < v.len() && v@[i as int] == c,
            None => index_of(v@, c) == -1,
        },
{
    let mut i: usize = 0;
    while i < v.len()
        invariant
            i <= v.len(),
            forall|j: int| 0 <= j < i ==> v@[j] != c,
        decreases v.len() - i,
    {
        if v[i] == c {
            proof {
                lemma_index_of(v@, c);
            }
            return Some(i);
        }
        i = i + 1;
    }
    proof {
        lemma_index_of(v@, c);
    }
    None
}

/// True when every character is an ASCII digit.
pub open spec fn all_digits(s: Seq<char>) -> bool {
    forall|i: int| 0 <= i < s.len() ==> '0' <= #[trigger] s[i] <= '9'
}

/// The value of a string of ASCII digits.
pub open spec fn digits_value(s: Seq<char>) -> nat
    decreases s.len(),
{
    if s.len() == 0 {
        0
    } else {
        digits_value(s.drop_last()) * 10 + ((s.last() as nat) - 48) as nat
    }
}

/// What `str::parse` gives for an unsigned integer type whose largest value
/// is `max`: an optional `'+'`, then one or more ASCII digits whose value
/// does not exceed `max`.
pub open spec fn parse_unsigned(s: Seq<char>, max: nat) -> Option<nat> {
    let d = if s.len() > 0 && s[0] == '+' {
        s.drop_first()
    } else {
        s
    };
    if d.len() > 0 && all_digits(d) && digits_value(d) <= max {
        Some(digits_value(d))
    } else {
        None
    }
}

proof fn lemma_digits_value_grows(s: Seq<char>, i: int)
    requires
        0 <= i <= s.len(),
        all_digits(s),
    ensures
        digits_value(s.take(i)) <= digits_value(s),
    decreases s.len() - i,
{
    if i < s.len() {
        let t = s.drop_last();
        assert(t.take(i) == s.take(i));
        assert(all_digits(t));
        lemma_digits_value_grows(t, i);
    } else {
        assert(s.take(i) == s);
    }
}

/// Parses `s` as an unsigned integer no larger than `max`, as `str::parse`
/// does for the unsigned type whose largest value is `max`.
pub fn parse_unsigned_chars(s: &[char], max: u64) -> (r: Option<u64>)
    requires
        max <= u32::MAX,
    ensures
        match r {
            Some(n) => parse_unsigned(s@, max as nat) == Some(n as nat),
            None => parse_unsigned(s@, max as nat) is None,
        },
{
    let start: usize = if s.len() > 0 && s[0] == '+' { 1 } else { 0 };
    let ghost d = if s@.len() > 0 && s@[0] == '+' { s@.drop_first() } else { s@ };
    assert(d == s@.skip(start as int));
    if start >= s.len() {
        return None;
    }
    let mut acc: u64 = 0;
    let mut i: usize = start;
    while i < s.len()
        invariant
            start <= i <= s.len(),
            d == s@.skip(start as int),
            d == (if s@.len() > 0 && s@[0] == '+' { s@.drop_first() } else { s@ }),
            acc <= max <= u32::MAX,
            all_digits(d.take(i - start)),
            acc == digits_value(d.take(i - start)),
        decreases s.len() - i,
    {
        let c: char = s[i];
        assert(d[i - start] == c);
        if c < '0' || c > '9' {
            assert(!('0' <= d[i - start] <= '9'));
            assert(!all_digits(d));
            return None;
        }
        let dv: u32 = (c as u32) - 48;
        let ghost pre = d.take(i - start);
        let ghost next = d.take(i + 1 - start);
        assert(next == pre.push(c));
        assert(next.drop_last() == pre);
        assert(all_digits(next)) by {
            assert forall|k: int| 0 <= k < next.len() implies '0' <= #[trigger] next[k] <= '9' by {
                if k < pre.len() {
                    assert(next[k] == pre[k]);
                }
            }
        }
        acc = acc * 10 + dv as u64;
        assert(acc == digits_value(next));
        i = i + 1;
        if acc > max {
            proof {
                lemma_digits_value_grows_when_all_digits(d, i - start);
            }
            return None;
        }
    }
    assert(d.take(i - start) == d);
    Some(acc)
}

proof fn lemma_digits_value_grows_when_all_digits(d: Seq<char>, k: int)
    requires
        0 <= k <= d.len(),
        all_digits(d.take(k)),
    ensures
        all_digits(d) ==> digits_value(d.take(k)) <= digits_value(d),
{
    if all_digits(d) {
        lemma_digits_value_grows(d, k);
    }
}

/// `decimal(n)` parses back to `n`.
pub proof fn lemma_parse_decimal(n: nat, max: nat)
    requires
        n <= max,
    ensures
        parse_unsigned(decimal(n), max) == Some(n),
{
    lemma_decimal_digits(n);
}

pub proof fn lemma_decimal_digits(n: nat)
    ensures
        decimal(n).len() > 0,
        all_digits(decimal(n)),
        digits_value(decimal(n)) == n,
        decimal(n)[0] != '+',
    decreases n,
{
    if n >= 10 {
        lemma_decimal_digits(n / 10);
        let p = decimal(n / 10);
        let k: nat = n % 10;
        let q = p.push(digit_char(k));
        assert(decimal(n) == q);
        assert(q.drop_last() == p);
        assert(q[0] == p[0]);
        assert(n == (n / 10) * 10 + n % 10) by (nonlinear_arith);
        assert((((k + 48) as u32) as char) as nat == k + 48);
        assert(digits_value(q) == digits_value(p) * 10 + k);
        assert(digits_value(q) == n);
        assert forall|i: int| 0 <= i < q.len() implies '0' <= #[trigger] q[i] <= '9' by {
            if i < p.len() {
                assert(q[i] == p[i]);
            }
        }
    } else {
        assert((((n + 48) as u32) as char) as nat == n + 48);
        let q = decimal(n);
        assert(q.drop_last() =~= Seq::<char>::empty());
        assert(digits_value(Seq::<char>::empty()) == 0);
        assert(q.last() == digit_char(n));
        assert(digits_value(q) == n);
    }
}

/// The white-space separated words of `s`, as `str::split_whitespace`
/// yields them.
pub open spec fn words(s: Seq<char>) -> Seq<Seq<char>>
    decreases s.len(),
{
    if s.len() == 0 {
        Seq::empty()
    } else {
        let c = s.last();
        let w = words(s.drop_last());
        if is_white_space(c) {
            w
        } else if s.len() >= 2 && !is_white_space(s[s.len() - 2]) {
            w.update(w.len() - 1, w.last().push(c))
        } else {
            w.push(seq![c])
        }
    }
}

proof fn lemma_words_nonempty(s: Seq<char>)
    requires
        s.len() > 0,
        !is_white_space(s.last()),
    ensures
        words(s).len() > 0,
    decreases s.len(),
{
    if s.len() >= 2 && !is_white_space(s[s.len() - 2]) {
        assert(s.drop_last().last() == s[s.len() - 2]);
        lemma_words_nonempty(s.drop_last());
    }
}

/// The white-space separated words of `v`.
pub fn split_words(v: &Vec<char>) -> (r: Vec<Vec<char>>)
    ensures
        views(r@) == words(v@),
{
    let mut r: Vec<Vec<char>> = Vec::new();
    let mut in_word: bool = false;
    let mut cur: Vec<char> = Vec::new();
    let mut i: usize = 0;
    while i < v.len()
        invariant
            i <= v.len(),
            in_word == (i > 0 && !is_white_space(v@[i - 1])),
            in_word ==> words(v@.take(i as int)) == views(r@).push(cur@),
            !in_word ==> words(v@.take(i as int)) == views(r@),
        decreases v.len() - i,
    {
        let c: char = v[i];
        let ghost pre = v@.take(i as int);
        assert(v@.take(i + 1).drop_last() == pre);
        assert(v@.take(i + 1).last() == c);
        if white_space(c) {
            if in_word {
                let w = cur;
                let ghost before = r@;
                r.push(w);
                assert(views(r@) =~= views(before).push(w@));
                cur = Vec::new();
            }
            in_word = false;
        } else {
            if in_word {
                assert(pre.len() >= 1 && pre.last() == v@[i - 1]);
                assert(v@.take(i + 1)[i - 1] == v@[i - 1]);
                cur.push(c);
                assert(words(v@.take(i + 1)) =~= views(r@).push(cur@));
            } else {
                if i > 0 {
                    assert(v@.take(i + 1)[i - 1] == v@[i - 1]);
                }
                cur = Vec::new();
                cur.push(c);
                assert(words(v@.take(i + 1)) =~= views(r@).push(cur@));
            }
            in_word = true;
        }
        i = i + 1;
    }
    assert(v@.take(v.len() as int) == v@);
    if in_word {
        let w = cur;
        let ghost before = r@;
        r.push(w);
        assert(views(r@) =~= views(before).push(w@));
    }
    r
}

/// True when `pat` occurs in `s` as a contiguous run.
pub open spec fn contains_run(s: Seq<char>, pat: Seq<char>) -> bool {
    exists|i: int| 0 <= i && i + pat.len() <= s.len() && #[trigger] s.subrange(i, i + pat.len()) == pat
}

/// Whether `pat` occurs in `s`.
pub fn has_run(s: &Vec<char>, pat: &Vec<char>) -> (b: bool)
    ensures
        b == contains_run(s@, pat@),
{
    if pat.len() > s.len() {
        return false;
    }
    let last: usize = s.len() - pat.len();
    let mut i: usize = 0;
    while i <= last
        invariant
            last + pat.len() == s.len(),
            i <= last + 1,
            forall|k: int| 0 <= k < i ==> #[trigger] s@.subrange(k, k + pat.len()) != pat@,
        decreases last + 1 - i,
    {
        let mut j: usize = 0;
        let mut same: bool = true;
        while j < pat.len()
            invariant
                i <= last,
                last + pat.len() == s.len(),
                j <= pat.len(),
                same == (forall|m: int| 0 <= m < j ==> s@[i + m] == #[trigger] pat@[m]),
            decreases pat.len() - j,
        {
            if s[i + j] != pat[j] {
                same = false;
            }
            j = j + 1;
        }
        if same {
            assert(s@.subrange(i as int, i + pat.len()) =~= pat@);
            return true;
        }
        assert(s@.subrange(i as int, i + pat.len()) != pat@) by {
            let m = choose|m: int| 0 <= m < pat.len() && s@[i + m] != #[trigger] pat@[m];
            assert(s@.subrange(i as int, i + pat.len())[m] == s@[i + m]);
        }
        i = i + 1;
    }
    false
}


/// The characters of `v` from `start` up to (not including) `end`.
pub fn sub_chars(v: &Vec<char>, start: usize, end: usize) -> (r: Vec<char>)
    requires
        start <= end <= v.len(),
    ensures
        r@ == v@.subrange(start as int, end as int),
{
    let mut r: Vec<char> = Vec::new();
    let mut j: usize = start;
    while j < end
        invariant
            start <= j <= end <= v.len(),
            r@ == v@.subrange(start as int, j as int),
        decreases end - j,
    {
        r.push(v[j]);
        j = j + 1;
        assert(r@ == v@.subrange(start as int, j as int));
    }
    r
}

/// Whether `v` holds exactly the characters of `s`.
pub fn chars_eq_str(v: &Vec<char>, s: &str) -> (b: bool)
    ensures
        b == (v@ == s@),
{
    let w = chars_of(s);
    if v.len() != w.len() {
        return false;
    }
    let mut i: usize = 0;
    while i < v.len()
        invariant
            v.len() == w.len(),
            w@ == s@,
            i <= v.len(),
            forall|j: int| 0 <= j < i ==> v@[j] == w@[j],
        decreases v.len() - i,
    {
        if v[i] != w[i] {
            assert(v@[i as int] != w@[i as int]);
            return false;
        }
        i = i + 1;
    }
    assert(v@ =~= w@);
    true
}


/// The lowercase hexadecimal digit for `d` (which must be below sixteen).
pub open spec fn hex_digit_char(d: nat) -> char {
    if d < 10 {
        ((d + 48) as u32) as char
    } else {
        ((d + 87) as u32) as char
    }
}

/// Lowercase hexadecimal rendering of `n`, no leading zeros.
pub open spec fn hex(n: nat) -> Seq<char>
    decreases n,
{
    if n < 16 {
        seq![hex_digit_char(n)]
    } else {
        hex(n / 16).push(hex_digit_char(n % 16))
    }
}

fn char_of_hex_digit(d: u32) -> (c: char)
    requires
        d < 16,
    ensures
        c == hex_digit_char(d as nat),
{
    if d < 10 {
        char_of_digit(d as u64)
    } else if d == 10 { 'a' } else if d == 11 { 'b' } else if d == 12 { 'c' } else if d == 13 { 'd' }
    else if d == 14 { 'e' } else { 'f' }
}

/// Appends the lowercase hexadecimal rendering of `n` to `out`.
pub fn push_hex(out: &mut Vec<char>, n: u32)
    ensures
        final(out)@ == old(out)@ + hex(n as nat),
{
    let mut digits: Vec<char> = Vec::new();
    let mut m: u32 = n;
    loop
        invariant_except_break
            m <= n,
            hex(n as nat) == hex(m as nat) + digits@,
        ensures
            hex(n as nat) == digits@,
        decreases m,
    {
        let c: char = char_of_hex_digit(m % 16);
        let ghost before = digits@;
        digits.insert(0, c);
        assert(digits@ == seq![c] + before);
        if m < 16 {
            assert(hex(m as nat) == seq![c]);
            break;
        }
        assert(hex(m as nat) == hex((m / 16) as nat).push(c));
        assert(hex((m / 16) as nat).push(c) + before == hex((m / 16) as nat) + digits@);
        m = m / 16;
    }
    push_chars(out, &digits);
}

} // verus!
