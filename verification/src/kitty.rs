//! The Kitty graphics protocol stream: image transmit commands (zlib
//! compressed, base64 encoded and split into escape packets) and image
//! delete commands, appended to an in-memory output buffer that the caller
//! then writes to the terminal.

use vstd::prelude::*;
use crate::text::{all_ascii, ascii_bytes, decimal, push_ascii, push_decimal, push_str};

verus! {

/// Reserved id for the single-image full-frame transmit helpers.
pub const FULL_FRAME_IMAGE_ID: u32 = 0xFFFF;

/// First id for the streaming renderer's full-frame images. The renderer uses
/// increasing ids so it can place a new frame before deleting the previous
/// one, avoiding visible delete-before-redraw flashes.
pub const STREAM_IMAGE_ID_START: u32 = 0x10000;

/// Largest number of payload bytes carried by one escape packet.
pub const CHUNK_SIZE: usize = 4096;

/// Why an image could not be transmitted.
#[derive(Debug, Clone, Copy, PartialEq, Eq, Structural)]
pub enum GraphicsError {
    /// The compressed pixels are too many to base64-encode in memory.
    Encoding,
}

// ----------------------------------------------------------------------------
// Outside encoders
// ----------------------------------------------------------------------------

/// The zlib stream that flate2 produces for `data` at `Compression::fast()`.
pub uninterp spec fn zlib_fast(data: Seq<u8>) -> Seq<u8>;

/// The bytes that flate2's `ZlibDecoder` inflates from the zlib stream
/// `stream`.
pub uninterp spec fn zlib_inflate(stream: Seq<u8>) -> Seq<u8>;

/// The base64 alphabet character (`A-Z`, `a-z`, `0-9`, `+`, `/`) for a
/// six-bit value.
pub open spec fn b64_digit(v: nat) -> u8 {
    if v < 26 {
        (65 + v) as u8
    } else if v < 52 {
        (97 + v - 26) as u8
    } else if v < 62 {
        (48 + v - 52) as u8
    } else if v == 62 {
        43u8
    } else {
        47u8
    }
}

/// The padded standard base64 text of `data`, as ASCII bytes: every group of
/// three bytes becomes four alphabet characters, six bits each, most
/// significant first; a last group of one or two bytes becomes two or three
/// characters followed by `=` padding up to four.
pub open spec fn base64_standard(data: Seq<u8>) -> Seq<u8>
    decreases data.len(),
{
    if data.len() == 0 {
        Seq::empty()
    } else if data.len() == 1 {
        let a = data[0] as nat;
        seq![b64_digit(a / 4), b64_digit((a % 4) * 16), 61u8, 61u8]
    } else if data.len() == 2 {
        let a = data[0] as nat;
        let b = data[1] as nat;
        seq![b64_digit(a / 4), b64_digit((a % 4) * 16 + b / 16), b64_digit((b % 16) * 4), 61u8]
    } else {
        let a = data[0] as nat;
        let b = data[1] as nat;
        let c = data[2] as nat;
        seq![b64_digit(a / 4), b64_digit((a % 4) * 16 + b / 16), b64_digit((b % 16) * 4 + c / 64), b64_digit(c % 64)]
            + base64_standard(data.subrange(3, data.len() as int))
    }
}

/// The six-bit value of a base64 alphabet character.
pub open spec fn b64_value(ch: u8) -> nat {
    if 65 <= ch <= 90 {
        (ch - 65) as nat
    } else if 97 <= ch <= 122 {
        (ch - 97 + 26) as nat
    } else if 48 <= ch <= 57 {
        (ch - 48 + 52) as nat
    } else if ch == 43 {
        62
    } else {
        63
    }
}

/// The bytes that padded standard base64 `text` stands for: every group of
/// four characters gives three bytes, or one or two where `=` pads it.
pub open spec fn base64_decode(text: Seq<u8>) -> Seq<u8>
    decreases text.len(),
{
    if text.len() < 4 {
        Seq::empty()
    } else {
        let v0 = b64_value(text[0]);
        let v1 = b64_value(text[1]);
        let v2 = b64_value(text[2]);
        let v3 = b64_value(text[3]);
        let b0 = (v0 * 4 + v1 / 16) as u8;
        let b1 = ((v1 % 16) * 16 + v2 / 4) as u8;
        let b2 = ((v2 % 4) * 64 + v3) as u8;
        let group = if text[2] == 61u8 {
            seq![b0]
        } else if text[3] == 61u8 {
            seq![b0, b1]
        } else {
            seq![b0, b1, b2]
        };
        group + base64_decode(text.subrange(4, text.len() as int))
    }
}

proof fn lemma_b64_digit(v: nat)
    requires
        v < 64,
    ensures
        b64_value(b64_digit(v)) == v,
        b64_digit(v) != 61u8,
{
}

/// Decoding the base64 text of `data` gives `data` back.
pub proof fn lemma_base64_round_trip(data: Seq<u8>)
    ensures
        base64_decode(base64_standard(data)) == data,
    decreases data.len(),
{
    let e = base64_standard(data);
    if data.len() == 0 {
        assert(e.len() == 0);
    } else {
        let a = data[0] as nat;
        let b = if data.len() >= 2 { data[1] as nat } else { 0 };
        let c = if data.len() >= 3 { data[2] as nat } else { 0 };
        lemma_b64_digit(a / 4);
        lemma_b64_digit((a % 4) * 16 + b / 16);
        lemma_b64_digit((b % 16) * 4 + c / 64);
        lemma_b64_digit(c % 64);
        lemma_b64_digit((a % 4) * 16);
        lemma_b64_digit((b % 16) * 4);
        assert(((a / 4) * 4 + ((a % 4) * 16 + b / 16) / 16) == a) by (nonlinear_arith)
            requires a < 256, b < 256;
        assert((((a % 4) * 16 + b / 16) % 16) * 16 + ((b % 16) * 4 + c / 64) / 4 == b) by (nonlinear_arith)
            requires b < 256, c < 256;
        assert((((b % 16) * 4 + c / 64) % 4) * 64 + c % 64 == c) by (nonlinear_arith)
            requires c < 256;
        assert(((a / 4) * 4 + ((a % 4) * 16) / 16) == a) by (nonlinear_arith)
            requires a < 256;
        assert((((a % 4) * 16 + b / 16) % 16) * 16 + ((b % 16) * 4) / 4 == b) by (nonlinear_arith)
            requires b < 256;
        if data.len() == 1 {
            assert(e.subrange(4, e.len() as int) =~= Seq::<u8>::empty());
            assert(base64_decode(e.subrange(4, e.len() as int)) == Seq::<u8>::empty());
            assert(base64_decode(e) =~= data);
        } else if data.len() == 2 {
            assert(e.subrange(4, e.len() as int) =~= Seq::<u8>::empty());
            assert(base64_decode(e.subrange(4, e.len() as int)) == Seq::<u8>::empty());
            assert(base64_decode(e) =~= data);
        } else {
            let rest = data.subrange(3, data.len() as int);
            lemma_base64_round_trip(rest);
            assert(e.subrange(4, e.len() as int) =~= base64_standard(rest));
            assert(base64_decode(e) =~= data);
        }
    }
}

/// Compresses `data` with flate2's `ZlibEncoder` over a `Vec<u8>` at
/// `Compression::fast()`. Claimed: it succeeds, with `zlib_fast(data)`, a
/// stream that inflates back to `data` (zlib is lossless). The
/// encoder writes only into the `Vec`, whose writes never fail, and the
/// miniz_oxide backend reports no error for a stream used this way; the
/// `None` arm only converts the error type the API declares.
#[verifier::external_body]
fn zlib_compress_fast(data: &[u8]) -> (r: Option<Vec<u8>>)
    ensures
        r is Some,
        r->0@ == zlib_fast(data@),
        zlib_inflate(r->0@) == data@,
{
    let mut enc = flate2::write::ZlibEncoder::new(Vec::new(), flate2::Compression::fast());
    if std::io::Write::write_all(&mut enc, data).is_err() {
        return None;
    }
    enc.finish().ok()
}

/// Encodes `data` with base64's `BASE64_STANDARD` engine (`Engine::encode`).
/// Claimed: the result is `base64_standard(data)` (standard alphabet,
/// padded). `Engine::encode` panics when the encoded length overflows
/// `usize`, which `requires` rules out.
#[verifier::external_body]
fn base64_encode(data: &[u8]) -> (r: Vec<u8>)
    requires
        (data.len() / 3) * 4 + 4 <= usize::MAX,
    ensures
        r@ == base64_standard(data@),
{
    base64::Engine::encode(&base64::prelude::BASE64_STANDARD, data).into_bytes()
}

// ----------------------------------------------------------------------------
// Escape packets
// ----------------------------------------------------------------------------

/// `ESC _ G`, which opens a graphics command.
pub open spec fn apc_open() -> Seq<u8> {
    seq![0x1bu8, 0x5fu8, 0x47u8]
}

/// `ESC \`, which closes a graphics command.
pub open spec fn apc_close() -> Seq<u8> {
    seq![0x1bu8, 0x5cu8]
}

/// A complete graphics command with the given control block and no payload.
pub open spec fn command(control: Seq<char>) -> Seq<u8> {
    apc_open() + ascii_bytes(control) + apc_close()
}

/// The payload bytes carried by the packet starting at `off`.
pub open spec fn chunk(payload: Seq<u8>, off: nat) -> Seq<u8> {
    if off + 4096 < payload.len() {
        payload.subrange(off as int, off as int + 4096)
    } else {
        payload.subrange(off as int, payload.len() as int)
    }
}

/// The `m` key's digit: `1` when more packets follow, `0` on the last one.
pub open spec fn more_flag(payload: Seq<u8>, off: nat) -> u8 {
    if off + 4096 < payload.len() {
        0x31u8
    } else {
        0x30u8
    }
}

/// The head of the packet starting at `off`: the first packet carries the
/// full control block, continuation packets only `q=2` and `m`.
pub open spec fn packet_head(control: Seq<u8>, payload: Seq<u8>, off: nat) -> Seq<u8> {
    if off == 0 {
        apc_open() + control + seq![0x2cu8, 0x6du8, 0x3du8, more_flag(payload, off), 0x3bu8]
    } else {
        apc_open() + seq![0x71u8, 0x3du8, 0x32u8, 0x2cu8, 0x6du8, 0x3du8, more_flag(payload, off), 0x3bu8]
    }
}

/// The packets that carry `payload` from offset `off` on.
pub open spec fn packets_from(control: Seq<u8>, payload: Seq<u8>, off: nat) -> Seq<u8>
    decreases payload.len() - off,
{
    if off >= payload.len() {
        Seq::empty()
    } else if off + 4096 >= payload.len() {
        packet_head(control, payload, off) + chunk(payload, off) + apc_close()
    } else {
        packet_head(control, payload, off) + chunk(payload, off) + apc_close() + packets_from(
            control,
            payload,
            off + 4096,
        )
    }
}

/// The payload bodies of the packets from offset `off` on, in order.
pub open spec fn chunks_from(payload: Seq<u8>, off: nat) -> Seq<Seq<u8>>
    decreases payload.len() - off,
{
    if off >= payload.len() {
        Seq::empty()
    } else if off + 4096 >= payload.len() {
        seq![chunk(payload, off)]
    } else {
        seq![chunk(payload, off)] + chunks_from(payload, off + 4096)
    }
}

/// Concatenation of byte strings.
pub open spec fn flatten(parts: Seq<Seq<u8>>) -> Seq<u8>
    decreases parts.len(),
{
    if parts.len() == 0 {
        Seq::empty()
    } else {
        parts[0] + flatten(parts.drop_first())
    }
}

/// Chunking loses nothing and reorders nothing: the packet bodies, in
/// order, are exactly the payload, and each body holds between one and
/// 4096 bytes.
pub proof fn lemma_chunks_carry_payload(payload: Seq<u8>, off: nat)
    requires
        off <= payload.len(),
    ensures
        flatten(chunks_from(payload, off)) == payload.skip(off as int),
        forall|k: int|
            0 <= k < chunks_from(payload, off).len() ==> 0 < (#[trigger] chunks_from(payload, off)[k]).len()
                <= 4096,
    decreases payload.len() - off,
{
    if off >= payload.len() {
        assert(payload.skip(off as int) =~= Seq::<u8>::empty());
    } else {
        let c = chunk(payload, off);
        let rest = if off + 4096 >= payload.len() {
            Seq::<Seq<u8>>::empty()
        } else {
            chunks_from(payload, off + 4096)
        };
        let all = chunks_from(payload, off);
        assert(all =~= seq![c] + rest);
        assert(all.drop_first() == rest);
        if off + 4096 < payload.len() {
            lemma_chunks_carry_payload(payload, off + 4096);
            assert(c + payload.skip(off as int + 4096) =~= payload.skip(off as int));
        } else {
            assert(flatten(rest) == Seq::<u8>::empty());
            assert(c =~= payload.skip(off as int));
            assert(all.drop_first() =~= Seq::<Seq<u8>>::empty());
            assert(flatten(all) == c + flatten(all.drop_first()));
        }
        assert forall|k: int| 0 <= k < all.len() implies 0 < (#[trigger] all[k]).len() <= 4096 by {
            if k > 0 {
                assert(all[k] == rest[k - 1]);
            }
        }
    }
}

/// Only the final packet is flagged as the last one: every packet but the
/// last says more follow.
pub proof fn lemma_only_last_packet_ends(payload: Seq<u8>, off: nat)
    requires
        off < payload.len(),
    ensures
        (more_flag(payload, off) == 0x30u8) <==> (packets_from(Seq::empty(), payload, off + 4096)
            == Seq::<u8>::empty()),
{
    if off + 4096 < payload.len() {
        let p = packets_from(Seq::empty(), payload, off + 4096);
        assert(p.len() >= apc_open().len());
    }
}

/// How many packets carry a payload of `len` bytes: one per started 4096
/// bytes.
pub open spec fn packet_count(len: nat) -> nat {
    ((len + 4095) / 4096) as nat
}

/// Packet `k` of the stream carrying `payload`, as the graphics protocol
/// lays it out: `ESC _ G`, the control block and `,` on the first packet or
/// `q=2,` on the others, then `m=1;` when more packets follow and `m=0;` on
/// the last, then bytes `4096 k` up to `4096 (k + 1)` of the payload, then
/// `ESC \`.
pub open spec fn stream_packet(control: Seq<u8>, payload: Seq<u8>, k: nat) -> Seq<u8> {
    let start: int = (4096 * k) as int;
    let end: int = if 4096 * (k + 1) < payload.len() {
        (4096 * (k + 1)) as int
    } else {
        payload.len() as int
    };
    let head = if k == 0 {
        control + seq![0x2cu8]
    } else {
        seq![0x71u8, 0x3du8, 0x32u8, 0x2cu8]
    };
    let m: u8 = if k + 1 < packet_count(payload.len()) {
        0x31u8
    } else {
        0x30u8
    };
    seq![0x1bu8, 0x5fu8, 0x47u8] + head + seq![0x6du8, 0x3du8, m, 0x3bu8] + payload.subrange(start as int, end)
        + seq![0x1bu8, 0x5cu8]
}

proof fn lemma_packet_count(len: nat, j: nat)
    ensures
        (4096 * j < len) == (j < packet_count(len)),
        (4096 * j + 4096 < len) == (j + 1 < packet_count(len)),
{
}

proof fn lemma_stream_from(control: Seq<u8>, payload: Seq<u8>, j: nat)
    requires
        j <= packet_count(payload.len()),
    ensures
        packets_from(control, payload, 4096 * j) == flatten(
            Seq::new((packet_count(payload.len()) - j) as nat, |k: int| stream_packet(control, payload, (j + k) as nat)),
        ),
    decreases packet_count(payload.len()) - j,
{
    let n = packet_count(payload.len());
    let parts = Seq::new((n - j) as nat, |k: int| stream_packet(control, payload, (j + k) as nat));
    lemma_packet_count(payload.len(), j);
    if j == n {
        assert(parts.len() == 0);
    } else {
        let off = 4096 * j;
        let first = packet_head(control, payload, off) + chunk(payload, off) + apc_close();
        assert(first =~= stream_packet(control, payload, j));
        let rest = Seq::new((n - (j + 1)) as nat, |k: int| stream_packet(control, payload, (j + 1 + k) as nat));
        assert(parts.drop_first() =~= rest);
        assert(parts[0] == stream_packet(control, payload, j));
        if j + 1 < n {
            lemma_stream_from(control, payload, j + 1);
            assert(4096 * (j + 1) == off + 4096);
        } else {
            assert(rest.len() == 0);
            assert(flatten(rest) == Seq::<u8>::empty());
            assert(first + Seq::<u8>::empty() =~= first);
        }
    }
}

/// The stream carrying `payload` is, packet after packet, exactly the
/// protocol's layout: one packet per started 4096 payload bytes, in order,
/// every one but the last flagged `m=1` and the last flagged `m=0`.
pub proof fn lemma_packets_layout(control: Seq<u8>, payload: Seq<u8>)
    ensures
        packets_from(control, payload, 0) == flatten(
            Seq::new(packet_count(payload.len()), |k: int| stream_packet(control, payload, k as nat)),
        ),
{
    lemma_stream_from(control, payload, 0);
    assert(Seq::new((packet_count(payload.len()) - 0) as nat, |k: int| stream_packet(control, payload, (0 + k) as nat))
        =~= Seq::new(packet_count(payload.len()), |k: int| stream_packet(control, payload, k as nat)));
}

fn push_bytes(out: &mut Vec<u8>, src: &[u8], start: usize, end: usize)
    requires
        start <= end <= src.len(),
    ensures
        final(out)@ == old(out)@ + src@.subrange(start as int, end as int),
{
    let mut j: usize = start;
    while j < end
        invariant
            start <= j <= end <= src.len(),
            out@ == old(out)@ + src@.subrange(start as int, j as int),
        decreases end - j,
    {
        out.push(src[j]);
        j = j + 1;
        assert(out@ =~= old(out)@ + src@.subrange(start as int, j as int));
    }
}

/// One packet: its head, its payload chunk and the closing sequence.
pub open spec fn packet(control: Seq<u8>, payload: Seq<u8>, off: nat) -> Seq<u8> {
    packet_head(control, payload, off) + chunk(payload, off) + apc_close()
}

proof fn lemma_packets_step(control: Seq<u8>, payload: Seq<u8>, off: nat)
    requires
        off < payload.len(),
    ensures
        packets_from(control, payload, off) == packet(control, payload, off) + packets_from(
            control,
            payload,
            if off + 4096 < payload.len() {
                off + 4096
            } else {
                payload.len()
            },
        ),
{
    if off + 4096 >= payload.len() {
        assert(packets_from(control, payload, payload.len()) == Seq::<u8>::empty());
        assert(packet(control, payload, off) + Seq::<u8>::empty() =~= packet(control, payload, off));
    }
}

fn push_packet(out: &mut Vec<u8>, control: &[u8], payload: &[u8], offset: usize) -> (next: usize)
    requires
        offset < payload.len(),
    ensures
        final(out)@ == old(out)@ + packet(control@, payload@, offset as nat),
        next == if offset + 4096 < payload.len() {
            offset + 4096
        } else {
            payload.len() as int
        },
{
    let len: usize = payload.len();
    let remaining: usize = len - offset;
    let more: bool = remaining > CHUNK_SIZE;
    let end: usize = if more { offset + CHUNK_SIZE } else { len };
    let flag: u8 = if more { 0x31 } else { 0x30 };
    assert(flag == more_flag(payload@, offset as nat));
    out.push(0x1b);
    out.push(0x5f);
    out.push(0x47);
    if offset == 0 {
        push_bytes(out, control, 0, control.len());
        assert(control@.subrange(0, control.len() as int) == control@);
    } else {
        out.push(0x71);
        out.push(0x3d);
        out.push(0x32);
    }
    out.push(0x2c);
    out.push(0x6d);
    out.push(0x3d);
    out.push(flag);
    out.push(0x3b);
    assert(out@ =~= old(out)@ + packet_head(control@, payload@, offset as nat));
    push_bytes(out, payload, offset, end);
    assert(payload@.subrange(offset as int, end as int) == chunk(payload@, offset as nat));
    out.push(0x1b);
    out.push(0x5c);
    assert(out@ =~= old(out)@ + packet(control@, payload@, offset as nat));
    end
}

/// Appends the escape packets that carry `payload` (already compressed and
/// encoded), the first one with the control block `control`: at most 4096
/// payload bytes per packet, `m=1` on every packet but the last.
pub fn payload_packets(out: &mut Vec<u8>, control: &[u8], payload: &[u8])
    ensures
        final(out)@ == old(out)@ + packets_from(control@, payload@, 0),
{
    let len: usize = payload.len();
    let mut offset: usize = 0;
    while offset < len
        invariant
            len == payload.len(),
            offset <= len,
            old(out)@ + packets_from(control@, payload@, 0) == out@ + packets_from(
                control@,
                payload@,
                offset as nat,
            ),
        decreases len - offset,
    {
        let ghost before = out@;
        proof {
            lemma_packets_step(control@, payload@, offset as nat);
        }
        let next = push_packet(out, control, payload, offset);
        assert(before + packets_from(control@, payload@, offset as nat) =~= out@ + packets_from(
            control@,
            payload@,
            next as nat,
        ));
        offset = next;
    }
    assert(packets_from(control@, payload@, offset as nat) == Seq::<u8>::empty());
    assert(out@ + Seq::<u8>::empty() =~= out@);
}

// ----------------------------------------------------------------------------
// Control blocks
// ----------------------------------------------------------------------------

/// The control block that transmits and places an image: RGBA pixels
/// (`f=32`), zlib compressed (`o=z`), direct payload, placement id 1,
/// `width` x `height` pixels, optionally scaled into `cells` (columns,
/// rows), optionally without moving the cursor (`C=1`), replies suppressed.
pub open spec fn transmit_control(
    image_id: nat,
    width: nat,
    height: nat,
    cells: Option<(nat, nat)>,
    keep_cursor: bool,
) -> Seq<char> {
    "a=T,f=32,o=z,i="@ + decimal(image_id) + ",p=1,s="@ + decimal(width) + ",v="@ + decimal(height)
        + match cells {
        Some((c, r)) => ",c="@ + decimal(c) + ",r="@ + decimal(r),
        None => Seq::<char>::empty(),
    } + if keep_cursor {
        ",C=1"@
    } else {
        Seq::<char>::empty()
    } + ",q=2"@
}

/// The control block that deletes image `image_id` and its placements.
pub open spec fn delete_image_control(image_id: nat) -> Seq<char> {
    "a=d,d=I,i="@ + decimal(image_id) + ",q=2"@
}

/// The control block that deletes every visible placement.
pub open spec fn delete_visible_control() -> Seq<char> {
    "a=d,d=A,q=2"@
}

/// The control blocks, spelled out as the graphics protocol reads them:
/// transmit and place (`a=T`) 32-bit RGBA (`f=32`) that is zlib
/// compressed (`o=z`), as image `i`, placement 1, `s` x `v` pixels,
/// optionally scaled into `c` x `r` cells and optionally without moving the
/// cursor (`C=1`), replies suppressed (`q=2`); delete one image and its
/// data (`a=d,d=I`) or every visible placement (`a=d,d=A`).
pub proof fn lemma_control_blocks(image_id: nat, width: nat, height: nat, cells: Option<(nat, nat)>, keep_cursor: bool)
    ensures
        transmit_control(image_id, width, height, cells, keep_cursor) == seq![
            'a', '=', 'T', ',', 'f', '=', '3', '2', ',', 'o', '=', 'z', ',', 'i', '=',
        ] + decimal(image_id) + seq![',', 'p', '=', '1', ',', 's', '='] + decimal(width) + seq![',', 'v', '=']
            + decimal(height) + match cells {
            Some((c, r)) => seq![',', 'c', '='] + decimal(c) + seq![',', 'r', '='] + decimal(r),
            None => Seq::<char>::empty(),
        } + (if keep_cursor {
            seq![',', 'C', '=', '1']
        } else {
            Seq::<char>::empty()
        }) + seq![',', 'q', '=', '2'],
        delete_image_control(image_id) == seq!['a', '=', 'd', ',', 'd', '=', 'I', ',', 'i', '=']
            + decimal(image_id) + seq![',', 'q', '=', '2'],
        delete_visible_control() == seq!['a', '=', 'd', ',', 'd', '=', 'A', ',', 'q', '=', '2'],
{
    reveal_strlit("a=T,f=32,o=z,i=");
    reveal_strlit(",p=1,s=");
    reveal_strlit(",v=");
    reveal_strlit(",c=");
    reveal_strlit(",r=");
    reveal_strlit(",C=1");
    reveal_strlit(",q=2");
    reveal_strlit("a=d,d=I,i=");
    reveal_strlit("a=d,d=A,q=2");
    assert("a=T,f=32,o=z,i="@ =~= seq!['a', '=', 'T', ',', 'f', '=', '3', '2', ',', 'o', '=', 'z', ',', 'i', '=']);
    assert(",p=1,s="@ =~= seq![',', 'p', '=', '1', ',', 's', '=']);
    assert(",v="@ =~= seq![',', 'v', '=']);
    assert(",c="@ =~= seq![',', 'c', '=']);
    assert(",r="@ =~= seq![',', 'r', '=']);
    assert(",C=1"@ =~= seq![',', 'C', '=', '1']);
    assert(",q=2"@ =~= seq![',', 'q', '=', '2']);
    assert("a=d,d=I,i="@ =~= seq!['a', '=', 'd', ',', 'd', '=', 'I', ',', 'i', '=']);
    assert("a=d,d=A,q=2"@ =~= seq!['a', '=', 'd', ',', 'd', '=', 'A', ',', 'q', '=', '2']);
}

proof fn lemma_decimal_ascii(n: nat)
    ensures
        all_ascii(decimal(n)),
{
    crate::text::lemma_decimal_digits(n);
}

proof fn lemma_ascii_concat(a: Seq<char>, b: Seq<char>)
    requires
        all_ascii(a),
        all_ascii(b),
    ensures
        all_ascii(a + b),
{
    assert forall|i: int| 0 <= i < (a + b).len() implies (#[trigger] (a + b)[i]) < 128 by {
        if i < a.len() {
            assert((a + b)[i] == a[i]);
        } else {
            assert((a + b)[i] == b[i - a.len()]);
        }
    }
}

fn push_decimal_ascii(out: &mut Vec<char>, n: u32)
    requires
        all_ascii(old(out)@),
    ensures
        final(out)@ == old(out)@ + decimal(n as nat),
        all_ascii(final(out)@),
{
    push_decimal(out, n as u64);
    proof {
        lemma_decimal_ascii(n as nat);
        lemma_ascii_concat(old(out)@, decimal(n as nat));
    }
}

fn push_ascii_str(out: &mut Vec<char>, s: &str)
    requires
        all_ascii(old(out)@),
        all_ascii(s@),
    ensures
        final(out)@ == old(out)@ + s@,
        all_ascii(final(out)@),
{
    push_str(out, s);
    proof {
        lemma_ascii_concat(old(out)@, s@);
    }
}

proof fn lemma_literals_ascii()
    ensures
        all_ascii("a=T,f=32,o=z,i="@),
        all_ascii(",p=1,s="@),
        all_ascii(",v="@),
        all_ascii(",c="@),
        all_ascii(",r="@),
        all_ascii(",C=1"@),
        all_ascii(",q=2"@),
        all_ascii("a=d,d=I,i="@),
        all_ascii("a=d,d=A,q=2"@),
{
    reveal_strlit("a=T,f=32,o=z,i=");
    reveal_strlit(",p=1,s=");
    reveal_strlit(",v=");
    reveal_strlit(",c=");
    reveal_strlit(",r=");
    reveal_strlit(",C=1");
    reveal_strlit(",q=2");
    reveal_strlit("a=d,d=I,i=");
    reveal_strlit("a=d,d=A,q=2");
}

fn transmit_control_bytes(image_id: u32, width: u32, height: u32, cells: Option<(u32, u32)>, keep_cursor: bool) -> (r: Vec<u8>)
    ensures
        r@ == ascii_bytes(
            transmit_control(
                image_id as nat,
                width as nat,
                height as nat,
                match cells {
                    Some((c, rr)) => Some((c as nat, rr as nat)),
                    None => None,
                },
                keep_cursor,
            ),
        ),
{
    proof {
        lemma_literals_ascii();
    }
    let mut c: Vec<char> = Vec::new();
    push_ascii_str(&mut c, "a=T,f=32,o=z,i=");
    push_decimal_ascii(&mut c, image_id);
    push_ascii_str(&mut c, ",p=1,s=");
    push_decimal_ascii(&mut c, width);
    push_ascii_str(&mut c, ",v=");
    push_decimal_ascii(&mut c, height);
    match cells {
        Some((cols, rows)) => {
            push_ascii_str(&mut c, ",c=");
            push_decimal_ascii(&mut c, cols);
            push_ascii_str(&mut c, ",r=");
            push_decimal_ascii(&mut c, rows);
        },
        None => {},
    }
    if keep_cursor {
        push_ascii_str(&mut c, ",C=1");
    }
    push_ascii_str(&mut c, ",q=2");
    assert(c@ =~= transmit_control(
        image_id as nat,
        width as nat,
        height as nat,
        match cells {
            Some((cc, rr)) => Some((cc as nat, rr as nat)),
            None => None,
        },
        keep_cursor,
    ));
    let mut r: Vec<u8> = Vec::new();
    push_ascii(&mut r, &c);
    r
}

/// Appends a complete graphics command with control block `control`.
fn push_command(out: &mut Vec<u8>, control: &Vec<char>)
    requires
        all_ascii(control@),
    ensures
        final(out)@ == old(out)@ + command(control@),
{
    out.push(0x1b);
    out.push(0x5f);
    out.push(0x47);
    push_ascii(out, control);
    out.push(0x1b);
    out.push(0x5c);
    assert(final(out)@ =~= old(out)@ + command(control@));
}

// ----------------------------------------------------------------------------
// Commands
// ----------------------------------------------------------------------------

/// Appends the command that deletes all currently visible placements,
/// freeing image data where the terminal can. Used before full redraws and
/// at shutdown so stale placements cannot survive a geometry change.
pub fn delete_visible_images_to(writer: &mut Vec<u8>)
    ensures
        final(writer)@ == old(writer)@ + command(delete_visible_control()),
{
    proof {
        lemma_literals_ascii();
    }
    let mut c: Vec<char> = Vec::new();
    push_ascii_str(&mut c, "a=d,d=A,q=2");
    push_command(writer, &c);
}

/// Appends the command that deletes the stored image `image_id` and all its
/// placements; id 0 names no image, so nothing is appended for it.
pub fn delete_image_data_to(writer: &mut Vec<u8>, image_id: u32)
    ensures
        image_id == 0 ==> final(writer)@ == old(writer)@,
        image_id != 0 ==> final(writer)@ == old(writer)@ + command(delete_image_control(image_id as nat)),
{
    if image_id == 0 {
        return;
    }
    proof {
        lemma_literals_ascii();
    }
    let mut c: Vec<char> = Vec::new();
    push_ascii_str(&mut c, "a=d,d=I,i=");
    push_decimal_ascii(&mut c, image_id);
    push_ascii_str(&mut c, ",q=2");
    push_command(writer, &c);
}

/// What a terminal recovers from the packets that carry `pixels`: the
/// packet bodies joined, base64-decoded and inflated.
pub open spec fn carried_pixels(pixels: Seq<u8>) -> Seq<u8> {
    zlib_inflate(base64_decode(flatten(chunks_from(base64_standard(zlib_fast(pixels)), 0))))
}

/// The bytes that transmit and place `pixels` with the given control block:
/// the packets carrying the base64 text of the zlib stream.
pub open spec fn image_packets(control: Seq<char>, pixels: Seq<u8>) -> Seq<u8> {
    packets_from(ascii_bytes(control), base64_standard(zlib_fast(pixels)), 0)
}

/// Whether the base64 text of `len` bytes fits in memory.
pub open spec fn encodable_len(len: nat) -> bool {
    len / 3 <= (usize::MAX - 4) / 4
}

/// Appends the packets that carry the base64 text of the zlib stream
/// `compressed`, the first one with the control block `control`. Fails,
/// writing nothing, exactly when that text would be too long to hold.
pub fn transmit_compressed(writer: &mut Vec<u8>, control: &[u8], compressed: &[u8]) -> (r: Result<(), GraphicsError>)
    ensures
        r is Ok <==> encodable_len(compressed@.len()),
        r is Ok ==> final(writer)@ == old(writer)@ + packets_from(control@, base64_standard(compressed@), 0),
        r is Err ==> final(writer)@ == old(writer)@,
{
    if compressed.len() / 3 > (usize::MAX - 4) / 4 {
        return Err(GraphicsError::Encoding);
    }
    let encoded = base64_encode(compressed);
    payload_packets(writer, control, encoded.as_slice());
    Ok(())
}

fn transmit_image(
    writer: &mut Vec<u8>,
    pixels: &[u8],
    width_px: u32,
    height_px: u32,
    cells: Option<(u32, u32)>,
    keep_cursor: bool,
    image_id: u32,
) -> (r: Result<(), GraphicsError>)
    ensures
        r is Ok ==> carried_pixels(pixels@) == pixels@,
        r is Ok <==> encodable_len(zlib_fast(pixels@).len()),
        r is Ok ==> final(writer)@ == old(writer)@ + image_packets(
            transmit_control(
                image_id as nat,
                width_px as nat,
                height_px as nat,
                match cells {
                    Some((c, rr)) => Some((c as nat, rr as nat)),
                    None => None,
                },
                keep_cursor,
            ),
            pixels@,
        ),
        r is Err ==> final(writer)@ == old(writer)@,
{
    let control = transmit_control_bytes(image_id, width_px, height_px, cells, keep_cursor);
    let compressed = match zlib_compress_fast(pixels) {
        Some(c) => c,
        None => {
            return Err(GraphicsError::Encoding);
        },
    };
    proof {
        lemma_chunks_carry_payload(base64_standard(compressed@), 0);
        lemma_base64_round_trip(compressed@);
        assert(base64_standard(compressed@).skip(0) =~= base64_standard(compressed@));
    }
    transmit_compressed(writer, control.as_slice(), compressed.as_slice())
}

/// Deletes the reserved full-frame image, then transmits `pixels` as that
/// image scaled into a `cols` x `rows` cell box.
pub fn write_rgba_frame_to(
    writer: &mut Vec<u8>,
    pixels: &[u8],
    width_px: u32,
    height_px: u32,
    cols: u32,
    rows: u32,
    prevent_cursor_move: bool,
) -> (r: Result<(), GraphicsError>)
    ensures
        r is Ok ==> carried_pixels(pixels@) == pixels@,
        r is Ok <==> encodable_len(zlib_fast(pixels@).len()),
        r is Ok ==> final(writer)@ == old(writer)@ + command(delete_image_control(FULL_FRAME_IMAGE_ID as nat))
            + image_packets(
            transmit_control(
                FULL_FRAME_IMAGE_ID as nat,
                width_px as nat,
                height_px as nat,
                Some((cols as nat, rows as nat)),
                prevent_cursor_move,
            ),
            pixels@,
        ),
        r is Err ==> final(writer)@ == old(writer)@ + command(delete_image_control(FULL_FRAME_IMAGE_ID as nat)),
{
    delete_image_data_to(writer, FULL_FRAME_IMAGE_ID);
    transmit_image(writer, pixels, width_px, height_px, Some((cols, rows)), prevent_cursor_move, FULL_FRAME_IMAGE_ID)
}

/// Deletes the reserved full-frame image, then transmits `pixels` as that
/// image at its native size.
pub fn write_rgba_frame_native_to(
    writer: &mut Vec<u8>,
    pixels: &[u8],
    width_px: u32,
    height_px: u32,
    prevent_cursor_move: bool,
) -> (r: Result<(), GraphicsError>)
    ensures
        r is Ok ==> carried_pixels(pixels@) == pixels@,
        r is Ok <==> encodable_len(zlib_fast(pixels@).len()),
        r is Ok ==> final(writer)@ == old(writer)@ + command(delete_image_control(FULL_FRAME_IMAGE_ID as nat))
            + image_packets(
            transmit_control(
                FULL_FRAME_IMAGE_ID as nat,
                width_px as nat,
                height_px as nat,
                None,
                prevent_cursor_move,
            ),
            pixels@,
        ),
        r is Err ==> final(writer)@ == old(writer)@ + command(delete_image_control(FULL_FRAME_IMAGE_ID as nat)),
{
    delete_image_data_to(writer, FULL_FRAME_IMAGE_ID);
    transmit_image(writer, pixels, width_px, height_px, None, prevent_cursor_move, FULL_FRAME_IMAGE_ID)
}

/// Transmits `pixels` at native size as image `image_id`, deleting nothing.
pub fn write_rgba_frame_native_with_id_to(
    writer: &mut Vec<u8>,
    pixels: &[u8],
    width_px: u32,
    height_px: u32,
    image_id: u32,
    prevent_cursor_move: bool,
) -> (r: Result<(), GraphicsError>)
    ensures
        r is Ok ==> carried_pixels(pixels@) == pixels@,
        r is Ok <==> encodable_len(zlib_fast(pixels@).len()),
        r is Ok ==> final(writer)@ == old(writer)@ + image_packets(
            transmit_control(image_id as nat, width_px as nat, height_px as nat, None, prevent_cursor_move),
            pixels@,
        ),
        r is Err ==> final(writer)@ == old(writer)@,
{
    transmit_image(writer, pixels, width_px, height_px, None, prevent_cursor_move, image_id)
}

/// Transmits `pixels` as image `image_id` scaled into a `cols` x `rows` cell
/// box (used by the streaming renderer to fit the desktop into the
/// terminal). Deletes no prior image: the renderer manages image lifetimes.
pub fn write_rgba_frame_scaled_with_id_to(
    writer: &mut Vec<u8>,
    pixels: &[u8],
    width_px: u32,
    height_px: u32,
    cols: u32,
    rows: u32,
    image_id: u32,
    prevent_cursor_move: bool,
) -> (r: Result<(), GraphicsError>)
    ensures
        r is Ok ==> carried_pixels(pixels@) == pixels@,
        r is Ok <==> encodable_len(zlib_fast(pixels@).len()),
        r is Ok ==> final(writer)@ == old(writer)@ + image_packets(
            transmit_control(
                image_id as nat,
                width_px as nat,
                height_px as nat,
                Some((cols as nat, rows as nat)),
                prevent_cursor_move,
            ),
            pixels@,
        ),
        r is Err ==> final(writer)@ == old(writer)@,
{
    transmit_image(writer, pixels, width_px, height_px, Some((cols, rows)), prevent_cursor_move, image_id)
}


// ----------------------------------------------------------------------------
// Writing to a non-blocking terminal
// ----------------------------------------------------------------------------

/// The OS error number that macOS uses for "resource temporarily
/// unavailable".
pub const EAGAIN_MACOS: i32 = 35;

/// What one `write` call on the terminal did.
#[derive(Debug, Clone, Copy, PartialEq, Eq, Structural)]
pub enum WriteOutcome {
    /// It accepted this many bytes.
    Wrote(usize),
    /// It failed; `would_block` is the error kind `WouldBlock`, `os_error`
    /// the raw OS error number, if any.
    Failed { would_block: bool, os_error: Option<i32> },
}

/// What to do next while writing a buffer out.
#[derive(Debug, Clone, Copy, PartialEq, Eq, Structural)]
pub enum WriteStep {
    /// Continue with this many bytes still to write (none: done).
    Continue(usize),
    /// Pause briefly, then try the same bytes again.
    Retry,
    /// Give up: the terminal accepted nothing.
    WriteZero,
    /// Give up with the error.
    Fail,
}

/// A failed call is retried when the terminal would block, including
/// macOS's raw `EAGAIN`.
pub open spec fn retryable(would_block: bool, os_error: Option<i32>) -> bool {
    would_block || os_error == Some(EAGAIN_MACOS)
}

/// Whether a failed call is worth retrying.
pub fn is_retryable(would_block: bool, os_error: Option<i32>) -> (b: bool)
    ensures
        b == retryable(would_block, os_error),
{
    would_block || match os_error {
        Some(e) => e == EAGAIN_MACOS,
        None => false,
    }
}

/// The next step after a `write` call with `remaining` bytes left to write.
pub fn after_write(remaining: usize, outcome: WriteOutcome) -> (step: WriteStep)
    requires
        outcome matches WriteOutcome::Wrote(n) ==> n <= remaining,
    ensures
        match outcome {
            WriteOutcome::Wrote(n) => if n == 0 {
                step == WriteStep::WriteZero
            } else {
                step == WriteStep::Continue((remaining - n) as usize)
            },
            WriteOutcome::Failed { would_block, os_error } => if retryable(would_block, os_error) {
                step == WriteStep::Retry
            } else {
                step == WriteStep::Fail
            },
        },
{
    match outcome {
        WriteOutcome::Wrote(n) => if n == 0 {
            WriteStep::WriteZero
        } else {
            WriteStep::Continue(remaining - n)
        },
        WriteOutcome::Failed { would_block, os_error } => if is_retryable(would_block, os_error) {
            WriteStep::Retry
        } else {
            WriteStep::Fail
        },
    }
}

/// Every accepted write makes progress: the bytes left strictly decrease.
pub proof fn lemma_write_progress(remaining: usize, n: usize)
    requires
        0 < n <= remaining,
    ensures
        match after_write_spec(remaining, n) {
            WriteStep::Continue(left) => left < remaining,
            _ => false,
        },
{
}

/// The step after a write of `n` of `remaining` bytes.
pub open spec fn after_write_spec(remaining: usize, n: usize) -> WriteStep {
    if n == 0 {
        WriteStep::WriteZero
    } else {
        WriteStep::Continue((remaining - n) as usize)
    }
}

} // verus!
