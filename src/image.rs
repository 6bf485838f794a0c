//! Image transfer: device-native pixel order and the split of an image into
//! fixed-size reports.

use vstd::prelude::*;
use vstd::arithmetic::div_mod::lemma_fundamental_div_mod_converse;

verus! {

/// Length of the bitmap container header that leads the first report.
pub const BMP_HEADER_LEN: usize = 54;

/// Bytes reserved at the start of every image report for its header.
pub const REPORT_IMG_HEADER_LENGTH: usize = 16;

/// Size of one image report.
pub const IMAGE_PACKET_SIZE: usize = 1024;

/// Width of a key image, in pixels.
pub const IMAGE_WIDTH: usize = 80;

/// Height of a key image, in pixels.
pub const IMAGE_HEIGHT: usize = 80;

/// The bitmap container header: a 24-bit bitmap of the device's resolution.
pub open spec fn bmp_header_spec() -> Seq<u8> {
    seq![
        0x42u8, 0x4d, 0xf6, 0x3c, 0x00, 0x00, 0x00, 0x00, 0x00, 0x00, 0x36, 0x00, 0x00, 0x00, 0x28, 0x00,
        0x00, 0x00, 0x48, 0x00, 0x00, 0x00, 0x48, 0x00, 0x00, 0x00, 0x01, 0x00, 0x18, 0x00, 0x00, 0x00,
        0x00, 0x00, 0xc0, 0x3c, 0x00, 0x00, 0xc4, 0x0e, 0x00, 0x00, 0xc4, 0x0e, 0x00, 0x00, 0x00, 0x00,
        0x00, 0x00, 0x00, 0x00, 0x00, 0x00,
    ]
}

/// Returns the bitmap container header.
pub fn bmp_header() -> (r: Vec<u8>)
    ensures
        r@ == bmp_header_spec(),
{
    let r: Vec<u8> = vec![
        0x42u8, 0x4d, 0xf6, 0x3c, 0x00, 0x00, 0x00, 0x00, 0x00, 0x00, 0x36, 0x00, 0x00, 0x00, 0x28, 0x00,
        0x00, 0x00, 0x48, 0x00, 0x00, 0x00, 0x48, 0x00, 0x00, 0x00, 0x01, 0x00, 0x18, 0x00, 0x00, 0x00,
        0x00, 0x00, 0xc0, 0x3c, 0x00, 0x00, 0xc4, 0x0e, 0x00, 0x00, 0xc4, 0x0e, 0x00, 0x00, 0x00, 0x00,
        0x00, 0x00, 0x00, 0x00, 0x00, 0x00,
    ];
    assert(r@ =~= bmp_header_spec());
    r
}

/// The per-packet header of an image report: report type, protocol version,
/// little-endian sequence number, last-packet flag and target key.
pub open spec fn image_header_spec(key: u8, sequence: u16, is_last: bool) -> Seq<u8> {
    seq![
        0x02u8,
        0x01u8,
        (sequence % 256) as u8,
        (sequence / 256) as u8,
        if is_last { 1u8 } else { 0u8 },
        key,
    ]
}

/// Writes the per-packet image header into bytes `0..6` of `buf`. `payload` is
/// the number of image bytes the packet carries; first-revision firmware does
/// not read it.
pub fn create_image_header(buf: &mut [u8], key: u8, sequence: u16, is_last: bool, payload: usize)
    requires
        old(buf)@.len() >= 6,
    ensures
        final(buf)@.len() == old(buf)@.len(),
        final(buf)@.subrange(0, 6) == image_header_spec(key, sequence, is_last),
        final(buf)@.subrange(6, old(buf)@.len() as int) == old(buf)@.subrange(
            6,
            old(buf)@.len() as int,
        ),
{
    let _ = payload;
    buf[0] = 0x02;
    buf[1] = 0x01;
    buf[2] = (sequence % 256) as u8;
    buf[3] = (sequence / 256) as u8;
    buf[4] = if is_last { 1 } else { 0 };
    buf[5] = key;
    assert(buf@.subrange(0, 6) =~= image_header_spec(key, sequence, is_last));
    assert(buf@.subrange(6, buf@.len() as int) =~= old(buf)@.subrange(6, old(buf)@.len() as int));
}

/// `n` zero bytes.
pub open spec fn zeros(n: nat) -> Seq<u8> {
    Seq::new(n, |i: int| 0u8)
}

// ---------------------------------------------------------------------------
// Device-native pixel order
// ---------------------------------------------------------------------------

/// For byte `i` of the device-native stream, the index of the byte of the
/// row-major RGB grid that it copies. The stream runs over the columns from the
/// rightmost one, over the rows of each column from the top, and gives the
/// channels of each pixel as blue, green, red.
pub open spec fn native_source(width: int, height: int, i: int) -> int {
    let p = i / 3;
    let x = width - 1 - p / height;
    let y = p % height;
    (y * width + x) * 3 + (2 - i % 3)
}

/// The device-native byte stream of a row-major RGB grid.
pub open spec fn device_native(pixels: Seq<u8>, width: nat, height: nat) -> Seq<u8> {
    Seq::new(width * height * 3, |i: int| pixels[native_source(width as int, height as int, i)])
}

/// For byte `s` of a row-major RGB grid, the index of the byte of the
/// device-native stream that holds it.
pub open spec fn grid_source(width: int, height: int, s: int) -> int {
    let q = s / 3;
    let x = q % width;
    let y = q / width;
    ((width - 1 - x) * height + y) * 3 + (2 - s % 3)
}

/// The row-major RGB grid that a device-native stream describes.
pub open spec fn grid_from_native(native: Seq<u8>, width: nat, height: nat) -> Seq<u8> {
    Seq::new(width * height * 3, |s: int| native[grid_source(width as int, height as int, s)])
}

proof fn lemma_native_index(width: int, height: int, k: int, row: int, c: int)
    requires
        0 <= k,
        0 <= row,
        0 <= c,
        k < width,
        row < height,
        c < 3,
    ensures
        0 <= (k * height + row) * 3 + c < width * height * 3,
        native_source(width, height, (k * height + row) * 3 + c) == (row * width + (width - 1
            - k)) * 3 + (2 - c),
        0 <= (row * width + (width - 1 - k)) * 3 + (2 - c) < width * height * 3,
{
    let p = k * height + row;
    let i = p * 3 + c;
    lemma_fundamental_div_mod_converse(i, 3, p, c);
    lemma_fundamental_div_mod_converse(p, height, k, row);
    assert(k * height + row < width * height) by (nonlinear_arith)
        requires
            0 <= k < width,
            0 <= row,
            row < height,
    ;
    assert(row * width + (width - 1 - k) < width * height) by (nonlinear_arith)
        requires
            0 <= k < width,
            0 <= row,
            row < height,
    ;
}

/// Reorders a row-major RGB grid of `width` x `height` pixels into the
/// device-native byte stream.
pub fn to_device_native(pixels: &Vec<u8>, width: usize, height: usize) -> (r: Vec<u8>)
    requires
        pixels@.len() == width * height * 3,
    ensures
        r@ == device_native(pixels@, width as nat, height as nat),
{
    let total: usize = pixels.len();
    let mut out: Vec<u8> = Vec::new();
    let mut col: usize = width;
    while col > 0
        invariant
            col <= width,
            pixels@.len() == width * height * 3,
            total == width * height * 3,
            out@.len() == (width - col) * height * 3,
            forall|i: int|
                0 <= i < out@.len() ==> out@[i] == pixels@[native_source(
                    width as int,
                    height as int,
                    i,
                )],
        decreases col,
    {
        col = col - 1;
        let mut row: usize = 0;
        while row < height
            invariant
                col < width,
                row <= height,
                pixels@.len() == width * height * 3,
                total == width * height * 3,
                out@.len() == ((width - 1 - col) * height + row) * 3,
                forall|i: int|
                    0 <= i < out@.len() ==> out@[i] == pixels@[native_source(
                        width as int,
                        height as int,
                        i,
                    )],
            decreases height - row,
        {
            let k: Ghost<int> = Ghost(width - 1 - col);
            proof {
                lemma_native_index(width as int, height as int, k@, row as int, 0);
                lemma_native_index(width as int, height as int, k@, row as int, 1);
                lemma_native_index(width as int, height as int, k@, row as int, 2);
            }
            let base = (row * width + col) * 3;
            out.push(pixels[base + 2]);
            out.push(pixels[base + 1]);
            out.push(pixels[base]);
            row = row + 1;
        }
        assert(((width - 1 - col) * height + height) * 3 == (width - col) * height * 3)
            by (nonlinear_arith);
    }
    assert(out@ =~= device_native(pixels@, width as nat, height as nat));
    out
}

// ---------------------------------------------------------------------------
// Splitting a stream into reports
// ---------------------------------------------------------------------------

/// A report layout: `packet_size` bytes per report, of which the first
/// `header_len` are the report header.
pub open spec fn valid_layout(packet_size: int, header_len: int) -> bool {
    6 <= header_len && header_len + BMP_HEADER_LEN < packet_size
}

/// Stream bytes that a report after the first carries.
pub open spec fn capacity(packet_size: int, header_len: int) -> int {
    packet_size - header_len
}

/// Stream bytes that report `j` has room for: the first one shares its room
/// with the bitmap header.
pub open spec fn packet_room(packet_size: int, header_len: int, j: int) -> int {
    if j == 0 {
        packet_size - header_len - BMP_HEADER_LEN
    } else {
        packet_size - header_len
    }
}

/// Offset in the stream of the first byte that report `j` carries.
pub open spec fn packet_offset(packet_size: int, header_len: int, j: int) -> int {
    if j == 0 {
        0
    } else {
        packet_room(packet_size, header_len, 0) + (j - 1) * capacity(packet_size, header_len)
    }
}

/// Number of reports that carry `remaining` bytes when the next one has room
/// for `room` bytes and each later one for `cap`.
pub open spec fn reports_for(remaining: int, room: int, cap: int) -> nat
    decreases remaining,
{
    if remaining <= 0 || room <= 0 {
        0
    } else if remaining <= room {
        1
    } else {
        1 + reports_for(remaining - room, cap, cap)
    }
}

/// Number of reports in the transfer of an `n`-byte stream.
pub open spec fn packet_count(n: int, packet_size: int, header_len: int) -> nat {
    reports_for(n, packet_room(packet_size, header_len, 0), capacity(packet_size, header_len))
}

/// Number of stream bytes that report `j` carries.
pub open spec fn packet_take(n: int, packet_size: int, header_len: int, j: int) -> int {
    let left = n - packet_offset(packet_size, header_len, j);
    let room = packet_room(packet_size, header_len, j);
    if left < room {
        left
    } else {
        room
    }
}

/// Position in report `j` of the first stream byte that it carries.
pub open spec fn payload_start(header_len: int, j: int) -> int {
    if j == 0 {
        header_len + BMP_HEADER_LEN
    } else {
        header_len
    }
}

/// Whether report `j` carries the last byte of an `n`-byte stream.
pub open spec fn packet_is_last(n: int, packet_size: int, header_len: int, j: int) -> bool {
    packet_offset(packet_size, header_len, j) + packet_take(n, packet_size, header_len, j) == n
}

/// Report `j` of the transfer of `native` to key `key`: its header, zeros up to
/// `header_len`, the bitmap header (first report only), its slice of the
/// stream, and zeros up to `packet_size`.
pub open spec fn image_packet(
    native: Seq<u8>,
    key: u8,
    packet_size: int,
    header_len: int,
    j: int,
) -> Seq<u8> {
    let n = native.len() as int;
    let off = packet_offset(packet_size, header_len, j);
    let take = packet_take(n, packet_size, header_len, j);
    let head = image_header_spec(key, j as u16, packet_is_last(n, packet_size, header_len, j))
        + zeros((header_len - 6) as nat);
    let bmp = if j == 0 {
        bmp_header_spec()
    } else {
        Seq::<u8>::empty()
    };
    head + bmp + native.subrange(off, off + take) + zeros(
        (packet_size - payload_start(header_len, j) - take) as nat,
    )
}

/// All reports of the transfer of `native` to key `key`, in sending order.
pub open spec fn image_transfer(
    native: Seq<u8>,
    key: u8,
    packet_size: int,
    header_len: int,
) -> Seq<Seq<u8>> {
    Seq::new(
        packet_count(native.len() as int, packet_size, header_len),
        |j: int| image_packet(native, key, packet_size, header_len, j),
    )
}

proof fn lemma_offset_step(packet_size: int, header_len: int, j: int)
    requires
        0 <= j,
    ensures
        packet_offset(packet_size, header_len, j + 1) == packet_offset(packet_size, header_len, j)
            + packet_room(packet_size, header_len, j),
{
    let c = capacity(packet_size, header_len);
    assert(j * c == (j - 1) * c + c) by (nonlinear_arith);
    assert(0 * c == 0);
}

/// Before report `j` of a transfer, some of the stream is left, and the
/// reports still to come number `packet_count - j`.
proof fn lemma_reports_left(n: int, packet_size: int, header_len: int, j: int)
    requires
        valid_layout(packet_size, header_len),
        0 <= j < packet_count(n, packet_size, header_len),
    ensures
        packet_offset(packet_size, header_len, j) < n,
        reports_for(
            n - packet_offset(packet_size, header_len, j),
            packet_room(packet_size, header_len, j),
            capacity(packet_size, header_len),
        ) == packet_count(n, packet_size, header_len) - j,
    decreases j,
{
    if j > 0 {
        lemma_reports_left(n, packet_size, header_len, j - 1);
        lemma_offset_step(packet_size, header_len, j - 1);
    }
}

/// Report `j` carries a full room of bytes unless it is the last report,
/// and the last report carries the end of the stream.
proof fn lemma_take(n: int, packet_size: int, header_len: int, j: int)
    requires
        valid_layout(packet_size, header_len),
        0 <= j < packet_count(n, packet_size, header_len),
    ensures
        0 < packet_take(n, packet_size, header_len, j),
        j + 1 < packet_count(n, packet_size, header_len) ==> packet_take(
            n,
            packet_size,
            header_len,
            j,
        ) == packet_room(packet_size, header_len, j) && packet_offset(
            packet_size,
            header_len,
            j,
        ) + packet_take(n, packet_size, header_len, j) == packet_offset(
            packet_size,
            header_len,
            j + 1,
        ) && !packet_is_last(n, packet_size, header_len, j),
        j + 1 == packet_count(n, packet_size, header_len) ==> packet_is_last(
            n,
            packet_size,
            header_len,
            j,
        ),
{
    lemma_reports_left(n, packet_size, header_len, j);
    lemma_offset_step(packet_size, header_len, j);
    let rem = n - packet_offset(packet_size, header_len, j);
    let room = packet_room(packet_size, header_len, j);
    let cap = capacity(packet_size, header_len);
    if rem > room {
        assert(reports_for(rem - room, cap, cap) >= 1);
    }
}

/// Splits the device-native stream `native` into the reports that carry it to
/// key `key`, each `packet_size` bytes long with a `header_len`-byte header.
pub fn image_packets(native: &Vec<u8>, key: u8, packet_size: usize, header_len: usize) -> (r: Vec<
    Vec<u8>,
>)
    requires
        valid_layout(packet_size as int, header_len as int),
        packet_count(native@.len() as int, packet_size as int, header_len as int) <= 0x10000,
    ensures
        r@.len() == packet_count(native@.len() as int, packet_size as int, header_len as int),
        forall|j: int|
            0 <= j < r@.len() ==> r@[j]@ == image_packet(
                native@,
                key,
                packet_size as int,
                header_len as int,
                j,
            ),
{
    let n: usize = native.len();
    let ghost ps = packet_size as int;
    let ghost hl = header_len as int;
    let ghost count = packet_count(n as int, ps, hl);
    let mut packets: Vec<Vec<u8>> = Vec::new();
    let mut offset: usize = 0;
    while offset < n
        invariant
            valid_layout(ps, hl),
            ps == packet_size,
            hl == header_len,
            n == native@.len(),
            count == packet_count(n as int, ps, hl),
            count <= 0x10000,
            offset <= n,
            offset < n ==> offset == packet_offset(ps, hl, packets@.len() as int),
            packets@.len() + reports_for(
                n - offset,
                packet_room(ps, hl, packets@.len() as int),
                capacity(ps, hl),
            ) == count,
            forall|j: int|
                0 <= j < packets@.len() ==> packets@[j]@ == image_packet(native@, key, ps, hl, j),
        decreases n - offset,
    {
        let j: usize = packets.len();
        let room: usize = if j == 0 {
            packet_size - header_len - BMP_HEADER_LEN
        } else {
            packet_size - header_len
        };
        let take: usize = if n - offset < room {
            n - offset
        } else {
            room
        };
        let is_last = offset + take == n;
        proof {
            lemma_reports_left(n as int, ps, hl, j as int);
            lemma_offset_step(ps, hl, j as int);
        }
        let mut buf: Vec<u8> = Vec::new();
        let mut i: usize = 0;
        while i < header_len
            invariant
                i <= header_len,
                buf@ == zeros(i as nat),
            decreases header_len - i,
        {
            buf.push(0);
            i = i + 1;
            assert(buf@ =~= zeros(i as nat));
        }
        create_image_header(buf.as_mut_slice(), key, j as u16, is_last, take);
        let ghost head = buf@;
        assert(head =~= image_header_spec(key, j as u16, is_last) + zeros((hl - 6) as nat)) by {
            assert(head =~= head.subrange(0, 6) + head.subrange(6, hl));
        }
        if j == 0 {
            let bmp = bmp_header();
            let mut b: usize = 0;
            while b < BMP_HEADER_LEN
                invariant
                    b <= BMP_HEADER_LEN,
                    bmp@ == bmp_header_spec(),
                    buf@ == head + bmp@.subrange(0, b as int),
                decreases BMP_HEADER_LEN - b,
            {
                buf.push(bmp[b]);
                b = b + 1;
                assert(buf@ =~= head + bmp@.subrange(0, b as int));
            }
            assert(bmp@.subrange(0, BMP_HEADER_LEN as int) =~= bmp@);
        }
        let ghost lead = buf@;
        let mut d: usize = 0;
        while d < take
            invariant
                d <= take,
                offset + take <= n,
                n == native@.len(),
                buf@ == lead + native@.subrange(offset as int, offset + d),
            decreases take - d,
        {
            buf.push(native[offset + d]);
            d = d + 1;
            assert(buf@ =~= lead + native@.subrange(offset as int, offset + d));
        }
        let ghost body = buf@;
        while buf.len() < packet_size
            invariant
                body.len() <= buf@.len() <= packet_size,
                buf@ == body + zeros((buf@.len() - body.len()) as nat),
            decreases packet_size - buf@.len(),
        {
            buf.push(0);
            assert(buf@ =~= body + zeros((buf@.len() - body.len()) as nat));
        }
        assert(buf@ =~= image_packet(native@, key, ps, hl, j as int));
        packets.push(buf);
        offset = offset + take;
        assert(forall|k: int|
            0 <= k < packets@.len() ==> packets@[k]@ == image_packet(native@, key, ps, hl, k));
    }
    packets
}

// ---------------------------------------------------------------------------
// What a receiver reads back
// ---------------------------------------------------------------------------

/// The stream bytes that report `j` of an `n`-byte transfer carries, read back
/// out of the report.
pub open spec fn packet_payload(packet: Seq<u8>, n: int, packet_size: int, header_len: int, j: int) -> Seq<u8> {
    let start = payload_start(header_len, j);
    packet.subrange(start, start + packet_take(n, packet_size, header_len, j))
}

/// The payloads of the first `k` reports of an `n`-byte transfer, joined in
/// sequence order.
pub open spec fn joined_payloads(
    packets: Seq<Seq<u8>>,
    n: int,
    packet_size: int,
    header_len: int,
    k: int,
) -> Seq<u8>
    decreases k,
{
    if k <= 0 {
        Seq::empty()
    } else {
        joined_payloads(packets, n, packet_size, header_len, k - 1) + packet_payload(
            packets[k - 1],
            n,
            packet_size,
            header_len,
            k - 1,
        )
    }
}

/// The parts of report `j`: its length, header, payload and zero tail.
proof fn lemma_packet_parts(native: Seq<u8>, key: u8, packet_size: int, header_len: int, j: int)
    requires
        valid_layout(packet_size, header_len),
        0 <= j < packet_count(native.len() as int, packet_size, header_len),
    ensures
        ({
            let n = native.len() as int;
            let p = image_packet(native, key, packet_size, header_len, j);
            let start = payload_start(header_len, j);
            let take = packet_take(n, packet_size, header_len, j);
            let off = packet_offset(packet_size, header_len, j);
            &&& p.len() == packet_size
            &&& 0 < take
            &&& start + take <= packet_size
            &&& 0 <= off
            &&& off + take <= n
            &&& p.subrange(0, 6) == image_header_spec(
                key,
                j as u16,
                packet_is_last(n, packet_size, header_len, j),
            )
            &&& packet_payload(p, n, packet_size, header_len, j) == native.subrange(off, off + take)
            &&& forall|i: int| start + take <= i < packet_size ==> p[i] == 0
        }),
{
    let n = native.len() as int;
    lemma_reports_left(n, packet_size, header_len, j);
    lemma_take(n, packet_size, header_len, j);
    if j > 0 {
        assert((j - 1) * capacity(packet_size, header_len) >= 0) by (nonlinear_arith)
            requires
                j >= 1,
                capacity(packet_size, header_len) > 0,
        ;
    }
    let p = image_packet(native, key, packet_size, header_len, j);
    let start = payload_start(header_len, j);
    let take = packet_take(n, packet_size, header_len, j);
    let off = packet_offset(packet_size, header_len, j);
    let head = image_header_spec(key, j as u16, packet_is_last(n, packet_size, header_len, j))
        + zeros((header_len - 6) as nat);
    let bmp = if j == 0 {
        bmp_header_spec()
    } else {
        Seq::<u8>::empty()
    };
    let lead = head + bmp;
    assert(lead.len() == start);
    assert(p.subrange(0, 6) =~= image_header_spec(
        key,
        j as u16,
        packet_is_last(n, packet_size, header_len, j),
    ));
    assert(packet_payload(p, n, packet_size, header_len, j) =~= native.subrange(off, off + take));
}

/// Joining the payloads of the first `k` reports gives the stream up to the
/// offset of report `k`, or all of it once every report is counted.
proof fn lemma_joined_prefix(native: Seq<u8>, key: u8, packet_size: int, header_len: int, k: int)
    requires
        valid_layout(packet_size, header_len),
        0 <= k <= packet_count(native.len() as int, packet_size, header_len),
    ensures
        ({
            let n = native.len() as int;
            let count = packet_count(n, packet_size, header_len) as int;
            let end = if k < count {
                packet_offset(packet_size, header_len, k)
            } else {
                n
            };
            joined_payloads(image_transfer(native, key, packet_size, header_len), n, packet_size, header_len, k)
                == native.subrange(0, end)
        }),
    decreases k,
{
    let n = native.len() as int;
    let count = packet_count(n, packet_size, header_len) as int;
    let t = image_transfer(native, key, packet_size, header_len);
    if k == 0 {
        assert(native.subrange(0, 0) =~= Seq::<u8>::empty());
        if count == 0 {
            assert(n == 0);
            assert(native.subrange(0, n) =~= Seq::<u8>::empty());
        }
    } else {
        lemma_joined_prefix(native, key, packet_size, header_len, k - 1);
        lemma_packet_parts(native, key, packet_size, header_len, k - 1);
        lemma_take(n, packet_size, header_len, k - 1);
        let off = packet_offset(packet_size, header_len, k - 1);
        let take = packet_take(n, packet_size, header_len, k - 1);
        assert(native.subrange(0, off + take) =~= native.subrange(0, off) + native.subrange(
            off,
            off + take,
        ));
    }
}

/// Joining, in sequence order, the payloads of every report of a transfer
/// gives back the device-native stream, with no byte left out, repeated or
/// moved.
pub proof fn lemma_payloads_rebuild_stream(native: Seq<u8>, key: u8, packet_size: int, header_len: int)
    requires
        valid_layout(packet_size, header_len),
    ensures
        joined_payloads(
            image_transfer(native, key, packet_size, header_len),
            native.len() as int,
            packet_size,
            header_len,
            packet_count(native.len() as int, packet_size, header_len) as int,
        ) == native,
{
    let count = packet_count(native.len() as int, packet_size, header_len) as int;
    lemma_joined_prefix(native, key, packet_size, header_len, count);
    assert(native.subrange(0, native.len() as int) =~= native);
}

/// Exactly one report of a transfer has its last-packet flag set: the one
/// whose payload ends at the last byte of the stream.
pub proof fn lemma_single_last_packet(native: Seq<u8>, key: u8, packet_size: int, header_len: int)
    requires
        valid_layout(packet_size, header_len),
    ensures
        ({
            let n = native.len() as int;
            let t = image_transfer(native, key, packet_size, header_len);
            forall|j: int|
                0 <= j < t.len() ==> {
                    &&& (t[j][4] == 1 <==> j == t.len() - 1)
                    &&& (t[j][4] == 1 <==> packet_offset(packet_size, header_len, j) + packet_take(
                        n,
                        packet_size,
                        header_len,
                        j,
                    ) == n)
                }
        }),
{
    let n = native.len() as int;
    let t = image_transfer(native, key, packet_size, header_len);
    assert forall|j: int| 0 <= j < t.len() implies {
        &&& (t[j][4] == 1 <==> j == t.len() - 1)
        &&& (t[j][4] == 1 <==> packet_offset(packet_size, header_len, j) + packet_take(
            n,
            packet_size,
            header_len,
            j,
        ) == n)
    } by {
        lemma_packet_parts(native, key, packet_size, header_len, j);
        lemma_take(n, packet_size, header_len, j);
        assert(t[j][4] == t[j].subrange(0, 6)[4]);
    }
}

/// The sequence numbers of a transfer's reports run `0, 1, 2, ...` without a
/// gap.
pub proof fn lemma_sequence_numbers(native: Seq<u8>, key: u8, packet_size: int, header_len: int)
    requires
        valid_layout(packet_size, header_len),
        packet_count(native.len() as int, packet_size, header_len) <= 0x10000,
    ensures
        ({
            let t = image_transfer(native, key, packet_size, header_len);
            forall|j: int| 0 <= j < t.len() ==> t[j][2] as int + 256 * t[j][3] as int == j
        }),
{
    let t = image_transfer(native, key, packet_size, header_len);
    assert forall|j: int| 0 <= j < t.len() implies t[j][2] as int + 256 * t[j][3] as int == j by {
        lemma_packet_parts(native, key, packet_size, header_len, j);
        assert(t[j][2] == t[j].subrange(0, 6)[2]);
        assert(t[j][3] == t[j].subrange(0, 6)[3]);
    }
}

/// Every report of a transfer is `packet_size` bytes long, and the bytes after
/// its payload are zero.
pub proof fn lemma_packets_sized_and_padded(native: Seq<u8>, key: u8, packet_size: int, header_len: int)
    requires
        valid_layout(packet_size, header_len),
    ensures
        ({
            let n = native.len() as int;
            let t = image_transfer(native, key, packet_size, header_len);
            forall|j: int|
                0 <= j < t.len() ==> {
                    &&& t[j].len() == packet_size
                    &&& forall|i: int|
                        payload_start(header_len, j) + packet_take(n, packet_size, header_len, j)
                            <= i < packet_size ==> t[j][i] == 0
                }
        }),
{
    let t = image_transfer(native, key, packet_size, header_len);
    assert forall|j: int| 0 <= j < t.len() implies {
        &&& t[j].len() == packet_size
        &&& forall|i: int|
            payload_start(header_len, j) + packet_take(native.len() as int, packet_size, header_len, j)
                <= i < packet_size ==> t[j][i] == 0
    } by {
        lemma_packet_parts(native, key, packet_size, header_len, j);
    }
}

/// Reading a grid back out of the device-native stream of a grid gives that
/// grid.
proof fn lemma_grid_from_native(pixels: Seq<u8>, width: nat, height: nat)
    requires
        pixels.len() == width * height * 3,
    ensures
        grid_from_native(device_native(pixels, width, height), width, height) == pixels,
{
    let native = device_native(pixels, width, height);
    let w = width as int;
    let h = height as int;
    assert forall|s: int| 0 <= s < pixels.len() implies grid_from_native(native, width, height)[s]
        == pixels[s] by {
        let q = s / 3;
        let c = s % 3;
        let x = q % w;
        let y = q / w;
        assert(w > 0 && h > 0) by (nonlinear_arith)
            requires
                0 <= s < w * h * 3,
                w >= 0,
                h >= 0,
        ;
        assert(0 <= q < w * h) by (nonlinear_arith)
            requires
                0 <= s < w * h * 3,
                q == s / 3,
        ;
        lemma_fundamental_div_mod_converse(s, 3, q, c);
        assert(0 <= y < h) by (nonlinear_arith)
            requires
                0 <= q < w * h,
                w > 0,
                y == q / w,
        ;
        assert(q == y * w + x) by (nonlinear_arith)
            requires
                w > 0,
                x == q % w,
                y == q / w,
        ;
        lemma_native_index(w, h, w - 1 - x, y, 2 - c);
    }
    assert(grid_from_native(native, width, height) =~= pixels);
}

/// Reading a grid back out of the joined payloads of a transfer of a grid's
/// device-native stream gives that grid, pixel for pixel.
pub proof fn lemma_round_trip(
    pixels: Seq<u8>,
    width: nat,
    height: nat,
    key: u8,
    packet_size: int,
    header_len: int,
)
    requires
        pixels.len() == width * height * 3,
        valid_layout(packet_size, header_len),
    ensures
        ({
            let native = device_native(pixels, width, height);
            let n = native.len() as int;
            grid_from_native(
                joined_payloads(
                    image_transfer(native, key, packet_size, header_len),
                    n,
                    packet_size,
                    header_len,
                    packet_count(n, packet_size, header_len) as int,
                ),
                width,
                height,
            ) == pixels
        }),
{
    lemma_payloads_rebuild_stream(device_native(pixels, width, height), key, packet_size, header_len);
    lemma_grid_from_native(pixels, width, height);
}

/// A transfer has no more reports than its stream has bytes.
proof fn lemma_reports_at_most_bytes(remaining: int, room: int, cap: int)
    requires
        1 <= cap,
        1 <= room,
    ensures
        reports_for(remaining, room, cap) <= if remaining < 0 {
            0
        } else {
            remaining
        },
    decreases remaining,
{
    if remaining > room {
        lemma_reports_at_most_bytes(remaining - room, cap, cap);
    }
}

/// The reports that carry `pixels`, a row-major RGB key image of
/// `IMAGE_WIDTH` x `IMAGE_HEIGHT` pixels, to key `key`: its device-native
/// stream split into `IMAGE_PACKET_SIZE`-byte reports with a
/// `REPORT_IMG_HEADER_LENGTH`-byte header.
pub fn key_image_packets(pixels: &Vec<u8>, key: u8) -> (r: Vec<Vec<u8>>)
    requires
        pixels@.len() == IMAGE_WIDTH * IMAGE_HEIGHT * 3,
    ensures
        ({
            let native = device_native(pixels@, IMAGE_WIDTH as nat, IMAGE_HEIGHT as nat);
            let t = image_transfer(
                native,
                key,
                IMAGE_PACKET_SIZE as int,
                REPORT_IMG_HEADER_LENGTH as int,
            );
            &&& r@.len() == t.len()
            &&& forall|j: int| 0 <= j < r@.len() ==> r@[j]@ == t[j]
        }),
{
    let native = to_device_native(pixels, IMAGE_WIDTH, IMAGE_HEIGHT);
    proof {
        lemma_reports_at_most_bytes(
            native@.len() as int,
            packet_room(IMAGE_PACKET_SIZE as int, REPORT_IMG_HEADER_LENGTH as int, 0),
            capacity(IMAGE_PACKET_SIZE as int, REPORT_IMG_HEADER_LENGTH as int),
        );
    }
    image_packets(&native, key, IMAGE_PACKET_SIZE, REPORT_IMG_HEADER_LENGTH)
}

} // verus!
