//! Decisions of the streaming renderer: frame pacing, image ids, when to
//! clear the screen, which image to delete after a new frame is placed, and
//! the status bar text.

use vstd::prelude::*;
use crate::kitty::STREAM_IMAGE_ID_START;
use crate::text::{chars_of, push_chars, push_str, string_from_chars};

verus! {

/// The image id after `image_id`: the next integer, or the first stream id
/// when that would overflow or fall below the stream range.
pub open spec fn next_id(image_id: u32) -> u32 {
    if image_id < u32::MAX && image_id + 1 >= STREAM_IMAGE_ID_START {
        (image_id + 1) as u32
    } else {
        STREAM_IMAGE_ID_START
    }
}

/// The id for the frame after one shown as `image_id`. It is always a stream
/// id and never `image_id` itself, so a new frame can be placed before the
/// previous one is deleted.
pub fn next_stream_image_id(image_id: u32) -> (n: u32)
    ensures
        n == next_id(image_id),
        n >= STREAM_IMAGE_ID_START,
        n != image_id,
{
    match image_id.checked_add(1) {
        Some(next) => if next >= STREAM_IMAGE_ID_START {
            next
        } else {
            STREAM_IMAGE_ID_START
        },
        None => STREAM_IMAGE_ID_START,
    }
}

/// Microseconds between frames at `fps` frames per second (at least one).
pub fn frame_interval_micros(fps: u32) -> (us: u64)
    ensures
        us == 1_000_000int / (if fps == 0 { 1int } else { fps as int }),
{
    let f: u64 = if fps == 0 { 1 } else { fps as u64 };
    1_000_000 / f
}

/// What to do for the next frame.
#[derive(Debug, Clone, Copy, PartialEq, Eq, Structural)]
pub struct FramePlan {
    /// Delete every placement and clear the screen first (the terminal
    /// changed size).
    pub clear_screen: bool,
    /// The id to transmit the new frame under.
    pub image_id: u32,
    /// The image on screen before this frame, to delete once the new frame
    /// is placed.
    pub previous_image_id: Option<u32>,
}

/// The renderer's memory between frames.
pub struct RenderState {
    pub current_image_id: Option<u32>,
    pub next_image_id: u32,
    pub last_terminal_size: Option<(u16, u16)>,
}

impl RenderState {
    /// Ids handed out are always stream ids.
    pub open spec fn wf(&self) -> bool {
        self.next_image_id >= STREAM_IMAGE_ID_START
    }

    pub fn new() -> (s: RenderState)
        ensures
            s.wf(),
            s.current_image_id is None,
            s.next_image_id == STREAM_IMAGE_ID_START,
            s.last_terminal_size is None,
    {
        RenderState { current_image_id: None, next_image_id: STREAM_IMAGE_ID_START, last_terminal_size: None }
    }

    /// Plans a frame for a terminal of `cols` x `rows` cells. A size change
    /// clears the screen and forgets the image on it; the frame gets the next
    /// id.
    pub fn begin_frame(&mut self, cols: u16, rows: u16) -> (plan: FramePlan)
        requires
            old(self).wf(),
        ensures
            final(self).wf(),
            plan.clear_screen == (old(self).last_terminal_size != Some((cols, rows))),
            plan.image_id == old(self).next_image_id,
            plan.previous_image_id == if plan.clear_screen {
                None
            } else {
                old(self).current_image_id
            },
            final(self).current_image_id == plan.previous_image_id,
            final(self).next_image_id == next_id(old(self).next_image_id),
            final(self).last_terminal_size == Some((cols, rows)),
    {
        let clear: bool = match self.last_terminal_size {
            Some((c, r)) => !(c == cols && r == rows),
            None => true,
        };
        if clear {
            self.current_image_id = None;
            self.last_terminal_size = Some((cols, rows));
        }
        let image_id: u32 = self.next_image_id;
        self.next_image_id = next_stream_image_id(image_id);
        FramePlan { clear_screen: clear, image_id, previous_image_id: self.current_image_id }
    }

    /// Records how the frame went. Once it is placed, it is the image on
    /// screen and the previous one is to be deleted; a failed frame changes
    /// nothing.
    pub fn finish_frame(&mut self, plan: FramePlan, placed: bool) -> (delete: Option<u32>)
        requires
            old(self).wf(),
        ensures
            final(self).wf(),
            final(self).next_image_id == old(self).next_image_id,
            final(self).last_terminal_size == old(self).last_terminal_size,
            placed ==> final(self).current_image_id == Some(plan.image_id) && delete == plan.previous_image_id,
            !placed ==> final(self).current_image_id == old(self).current_image_id && delete is None,
    {
        if placed {
            self.current_image_id = Some(plan.image_id);
            plan.previous_image_id
        } else {
            None
        }
    }
}

/// The number of bytes `c` takes in UTF-8.
pub open spec fn utf8_len(c: char) -> nat {
    if (c as u32) < 0x80 {
        1
    } else if (c as u32) < 0x800 {
        2
    } else if (c as u32) < 0x10000 {
        3
    } else {
        4
    }
}

/// The number of bytes `s` takes in UTF-8.
pub open spec fn utf8_count(s: Seq<char>) -> nat
    decreases s.len(),
{
    if s.len() == 0 {
        0
    } else {
        utf8_count(s.drop_last()) + utf8_len(s.last())
    }
}

/// The status bar before it is cut: a space, then the status padded with
/// spaces to `cols - 1` characters.
pub open spec fn status_bar_padded(status: Seq<char>, cols: nat) -> Seq<char> {
    let width = if cols > 0 { (cols - 1) as nat } else { 0 };
    let pad = if status.len() < width { (width - status.len()) as nat } else { 0 };
    seq![' '] + status + Seq::new(pad, |i: int| ' ')
}

/// The bar is cut at `cols` bytes (or kept whole when shorter), and that cut
/// falls between two characters.
pub open spec fn cut_on_boundary(status: Seq<char>, cols: nat) -> bool {
    let bar = status_bar_padded(status, cols);
    exists|k: int| 0 <= k <= bar.len() && #[trigger] utf8_count(bar.take(k)) == min_nat(utf8_count(bar), cols)
}

pub open spec fn min_nat(a: nat, b: nat) -> nat {
    if a <= b {
        a
    } else {
        b
    }
}

/// The status bar row for a terminal `cols` wide: the padded bar cut to its
/// first `cols` bytes, in reverse video.
pub open spec fn status_bar_text(status: Seq<char>, cols: nat) -> Seq<char> {
    let bar = status_bar_padded(status, cols);
    let k = choose|k: int| 0 <= k <= bar.len() && #[trigger] utf8_count(bar.take(k)) == min_nat(utf8_count(bar), cols);
    "\u{1b}[7m"@ + bar.take(k) + "\u{1b}[0m"@
}

proof fn lemma_utf8_count_grows(s: Seq<char>, i: int, j: int)
    requires
        0 <= i < j <= s.len(),
    ensures
        utf8_count(s.take(i)) < utf8_count(s.take(j)),
    decreases j - i,
{
    assert(s.take(j).drop_last() =~= s.take(j - 1));
    assert(s.take(j).last() == s[j - 1]);
    if i < j - 1 {
        lemma_utf8_count_grows(s, i, j - 1);
    }
}

proof fn lemma_utf8_count_step(s: Seq<char>, j: int)
    requires
        0 <= j < s.len(),
    ensures
        utf8_count(s.take(j + 1)) == utf8_count(s.take(j)) + utf8_len(s[j]),
{
    assert(s.take(j + 1).drop_last() =~= s.take(j));
    assert(s.take(j + 1).last() == s[j]);
}

fn char_utf8_len(c: char) -> (n: usize)
    ensures
        n == utf8_len(c),
{
    let u: u32 = c as u32;
    if u < 0x80 {
        1
    } else if u < 0x800 {
        2
    } else if u < 0x10000 {
        3
    } else {
        4
    }
}

/// The status bar row for `status`: a space and the status padded with
/// spaces to `cols - 1` characters, cut to its first `cols` bytes, in
/// reverse video. The cut must fall between two characters.
pub fn status_bar(status: &str, cols: u16) -> (s: String)
    requires
        cut_on_boundary(status@, cols as nat),
    ensures
        s@ == status_bar_text(status@, cols as nat),
{
    let st = chars_of(status);
    let width: usize = if cols > 0 { cols as usize - 1 } else { 0 };
    let mut bar: Vec<char> = Vec::new();
    bar.push(' ');
    push_chars(&mut bar, &st);
    let ghost head = bar@;
    let pad: usize = if st.len() < width { width - st.len() } else { 0 };
    let mut i: usize = 0;
    while i < pad
        invariant
            i <= pad,
            bar@ == head + Seq::new(i as nat, |k: int| ' '),
        decreases pad - i,
    {
        bar.push(' ');
        i = i + 1;
        assert(bar@ =~= head + Seq::new(i as nat, |k: int| ' '));
    }
    assert(bar@ =~= status_bar_padded(status@, cols as nat));
    let ghost b = bar@;
    let ghost limit = min_nat(utf8_count(b), cols as nat);
    let ghost k0 = choose|k: int| 0 <= k <= b.len() && #[trigger] utf8_count(b.take(k)) == limit;
    let mut out: Vec<char> = Vec::new();
    push_str(&mut out, "\u{1b}[7m");
    let ghost start = out@;
    let mut j: usize = 0;
    let mut count: usize = 0;
    while j < bar.len() && count < cols as usize
        invariant
            b == bar@,
            0 <= k0 <= b.len(),
            utf8_count(b.take(k0)) == limit,
            limit == min_nat(utf8_count(b), cols as nat),
            j <= bar.len(),
            j <= k0,
            count == utf8_count(b.take(j as int)),
            out@ == start + b.take(j as int),
        decreases bar.len() - j,
    {
        proof {
            lemma_utf8_count_step(b, j as int);
            if (j as int) == k0 {
                assert(b.take(k0) =~= b.take(j as int));
                if k0 < b.len() {
                    lemma_utf8_count_grows(b, k0, b.len() as int);
                    assert(b.take(b.len() as int) =~= b);
                }
            }
        }
        out.push(bar[j]);
        count = count + char_utf8_len(bar[j as usize]);
        j = j + 1;
        assert(out@ =~= start + b.take(j as int));
        proof {
            if (j as int) > k0 {
                lemma_utf8_count_grows(b, k0, j as int);
                if k0 < j - 1 {
                    lemma_utf8_count_grows(b, k0, j - 1);
                }
            }
        }
    }
    proof {
        assert(b.take(b.len() as int) =~= b);
        if (j as int) < k0 {
            lemma_utf8_count_grows(b, j as int, k0);
        }
        assert(j as int == k0);
    }
    push_str(&mut out, "\u{1b}[0m");
    assert(out@ =~= status_bar_text(status@, cols as nat));
    string_from_chars(&out)
}

} // verus!
