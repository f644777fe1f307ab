//! Device protocol driver: the byte-exact chunked wire protocol of the
//! display controller.
//!
//! The driver turns an RGBA frame into RGB565 bytes and plans the exact
//! sequence of wire messages: a frame-start header, one message per 47-byte
//! chunk that differs from the previously transmitted frame, and a frame-end
//! header.  The caller transmits the planned messages over its serial
//! connection; the diff cache lives here and is verified.

use vstd::prelude::*;

use crate::img::{Image, ImgView};

verus! {

/// Width of the display in pixels.
pub const DISPLAY_WIDTH: u32 = 960;

/// Height of the display in pixels.
pub const DISPLAY_HEIGHT: u32 = 376;

/// Bytes of frame data carried by one chunk message.
pub const IMG_CHUNK_SIZE: usize = 47;

/// How many times a failed transport write is retried before giving up.
pub const SERIAL_RETRY: u8 = 3;

/// Baud rate of the display's USB UART.
pub const UART_BAUDRATE: u32 = 1500000;

/// USB vendor id of the default display UART.
pub const USB_UART_VID: u16 = 0x416;

/// USB product id of the default display UART.
pub const USB_UART_PID: u16 = 0x90A1;

/// The 8-byte display-off command.
pub open spec fn display_off_bytes() -> Seq<u8> {
    seq![0xAAu8, 0x55u8, 0xAAu8, 0x55u8, 0x0Au8, 0u8, 0u8, 0u8]
}

/// The 8-byte display-on command.
pub open spec fn display_on_bytes() -> Seq<u8> {
    seq![0xAAu8, 0x55u8, 0xAAu8, 0x55u8, 0x0Bu8, 0u8, 0u8, 0u8]
}

/// The fixed 16-byte frame-start header.
pub open spec fn header_start_bytes() -> Seq<u8> {
    seq![
        0xAAu8,
        0x55u8,
        0xAAu8,
        0x55u8,
        0x05u8,
        0u8,
        0u8,
        0u8,
        0x04u8,
        0u8,
        0x0Fu8,
        0x2Fu8,
        0u8,
        0x04u8,
        0x0Bu8,
        0u8,
    ]
}

/// The 8-byte frame-end header.
pub open spec fn header_end_bytes() -> Seq<u8> {
    seq![0xAAu8, 0x55u8, 0xAAu8, 0x55u8, 0x06u8, 0u8, 0u8, 0u8]
}

/// The 8-byte header that starts every chunk message.
pub open spec fn chunk_header_bytes() -> Seq<u8> {
    seq![0xAAu8, 0x55u8, 0xAAu8, 0x55u8, 0x08u8, 0u8, 0u8, 0u8]
}

/// The four little-endian bytes of a 32-bit value.
pub open spec fn le32_bytes(v: int) -> Seq<u8> {
    seq![
        (v % 256) as u8,
        ((v / 256) % 256) as u8,
        ((v / 65536) % 256) as u8,
        ((v / 16777216) % 256) as u8,
    ]
}

/// RGB565 packing of one 8-bit RGB pixel: the low 3/2/3 bits of each
/// channel are masked off and the fields packed into one 16-bit word.
pub open spec fn spec_rgb565(r: u8, g: u8, b: u8) -> u16 {
    (((r & 248) as u16) << 8) | (((g & 252) as u16) << 3) | ((b as u16) >> 3)
}

/// Converts a single RGB 888 pixel to 16 bit RGB 565 format.
pub fn convert_rgb(r: u8, g: u8, b: u8) -> (v: u16)
    ensures
        v == spec_rgb565(r, g, b),
{
    (((r & 248) as u16) << 8) | (((g & 252) as u16) << 3) | ((b as u16) >> 3)
}

/// The RGB565 little-endian byte stream of an image, two bytes per pixel
/// in row-major order; the alpha channel is dropped.
pub open spec fn spec_rgb565_le(img: ImgView) -> Seq<u8> {
    Seq::new(
        2 * img.pixels.len(),
        |i: int|
            {
                let p = img.pixels[i / 2];
                let v = spec_rgb565(p.r, p.g, p.b);
                if i % 2 == 0 {
                    (v & 0xff) as u8
                } else {
                    (v >> 8) as u8
                }
            },
    )
}

/// Gets an RGB 565 representation of the image in little endian format.
pub fn to_rgb565_le(image: &Image) -> (r: Vec<u8>)
    requires
        image.wf(),
    ensures
        r@ == spec_rgb565_le(image@),
{
    let w = image.width();
    let h = image.height();
    let mut out: Vec<u8> = Vec::new();
    let mut y: u32 = 0;
    while y < h
        invariant
            image.wf(),
            w == image@.width,
            h == image@.height,
            0 <= y <= h,
            out@.len() == 2 * (y * w),
            out@.len() <= 2 * image@.pixels.len(),
            forall|i: int| 0 <= i < out@.len() ==> out@[i] == spec_rgb565_le(image@)[i],
        decreases h - y,
    {
        let mut x: u32 = 0;
        proof {
            assert(2 * (y as int) * (w as int) + 0 == 2 * ((y as int) * (w as int) + 0))
                by (nonlinear_arith);
        }
        while x < w
            invariant
                image.wf(),
                w == image@.width,
                h == image@.height,
                0 <= y < h,
                0 <= x <= w,
                out@.len() == 2 * (y * w + x),
                out@.len() <= 2 * image@.pixels.len(),
                forall|i: int| 0 <= i < out@.len() ==> out@[i] == spec_rgb565_le(image@)[i],
            decreases w - x,
        {
            let p = image.px(x, y);
            let v = convert_rgb(p.r, p.g, p.b);
            let ghost pi = (y as int) * (w as int) + x;
            proof {
                crate::img::lemma_rowmajor_index(w as int, h as int, x as int, y as int);
                assert(2 * pi < 2 * image@.pixels.len());
                assert((2 * pi) / 2 == pi && (2 * pi) % 2 == 0 && (2 * pi + 1) / 2 == pi && (2 * pi
                    + 1) % 2 == 1) by (nonlinear_arith);
                assert(image@.pixel(x as int, y as int) == image@.pixels[pi]);
            }
            out.push((v & 0xff) as u8);
            out.push((v >> 8) as u8);
            proof {
                assert(out@[2 * pi] == spec_rgb565_le(image@)[2 * pi]);
                assert(out@[2 * pi + 1] == spec_rgb565_le(image@)[2 * pi + 1]);
                assert(2 * pi + 2 == 2 * ((y as int) * (w as int) + (x as int + 1)));
            }
            x += 1;
        }
        proof {
            assert(2 * ((y as int) * w + w) == 2 * ((y as int + 1) * w)) by (nonlinear_arith);
        }
        y += 1;
    }
    proof {
        assert(2 * ((h as int) * (w as int)) == 2 * image@.pixels.len()) by (nonlinear_arith)
            requires
                image@.pixels.len() == image@.width * image@.height,
                w == image@.width,
                h == image@.height,
        ;
        assert(out@ =~= spec_rgb565_le(image@));
    }
    out
}

/// The bytes of chunk `i` of a frame: up to 47 bytes starting at offset
/// `47 i`.
pub open spec fn spec_chunk(frame: Seq<u8>, i: int) -> Seq<u8> {
    frame.subrange(
        47 * i,
        if 47 * i + 47 <= frame.len() {
            47 * i + 47
        } else {
            frame.len() as int
        },
    )
}

/// How many chunks a frame of the given length has.
pub open spec fn spec_num_chunks(len: int) -> int {
    (len + 46) / 47
}

/// Whether chunk `i` is skipped: caching must be on, the previous frame
/// must cover a full 47-byte chunk at this offset, and the bytes must be
/// identical.  A partial trailing chunk is never skipped.
pub open spec fn spec_chunk_skipped(frame: Seq<u8>, cache: Option<Seq<u8>>, i: int) -> bool {
    match cache {
        Some(c) => 47 * i + 47 <= c.len() && c.subrange(47 * i, 47 * i + 47) == spec_chunk(
            frame,
            i,
        ),
        None => false,
    }
}

/// The wire message for chunk `i`: chunk header, little-endian byte offset,
/// then the chunk bytes.
pub open spec fn spec_chunk_msg(frame: Seq<u8>, i: int) -> Seq<u8> {
    chunk_header_bytes() + le32_bytes(47 * i) + spec_chunk(frame, i)
}

/// The messages for the first `n` chunks, in order, with skipped chunks
/// left out.
pub open spec fn spec_chunk_msgs(frame: Seq<u8>, cache: Option<Seq<u8>>, n: int) -> Seq<Seq<u8>>
    decreases n,
{
    if n <= 0 {
        Seq::empty()
    } else {
        spec_chunk_msgs(frame, cache, n - 1) + if spec_chunk_skipped(frame, cache, n - 1) {
            Seq::<Seq<u8>>::empty()
        } else {
            seq![spec_chunk_msg(frame, n - 1)]
        }
    }
}

/// Every message of one frame transmission: the frame-start header, the
/// chunk messages that the diff cache does not skip, and the frame-end
/// header.
pub open spec fn spec_frame_messages(frame: Seq<u8>, cache: Option<Seq<u8>>) -> Seq<Seq<u8>> {
    seq![header_start_bytes()] + spec_chunk_msgs(frame, cache, spec_num_chunks(frame.len() as int))
        + seq![header_end_bytes()]
}

/// The views of a vector of byte vectors.
pub open spec fn views_of(m: Seq<Vec<u8>>) -> Seq<Seq<u8>> {
    m.map_values(|x: Vec<u8>| x@)
}

/// Whether the byte ranges `a[ai..ai+n]` and `b[bi..bi+n]` are identical.
fn range_eq(a: &Vec<u8>, ai: usize, b: &Vec<u8>, bi: usize, n: usize) -> (r: bool)
    requires
        ai + n <= a@.len(),
        bi + n <= b@.len(),
    ensures
        r == (a@.subrange(ai as int, ai + n) == b@.subrange(bi as int, bi + n)),
{
    let alen = a.len();
    let blen = b.len();
    let mut k: usize = 0;
    while k < n
        invariant
            0 <= k <= n,
            ai + n <= alen,
            bi + n <= blen,
            alen == a@.len(),
            blen == b@.len(),
            forall|j: int| 0 <= j < k ==> #[trigger] a@[ai + j] == b@[bi + j],
        decreases n - k,
    {
        if a[ai + k] != b[bi + k] {
            assert(a@.subrange(ai as int, ai + n)[k as int] != b@.subrange(bi as int, bi + n)[k as int]);
            return false;
        }
        k += 1;
    }
    proof {
        assert forall|j: int| 0 <= j < n implies #[trigger] a@.subrange(ai as int, ai + n)[j]
            == b@.subrange(bi as int, bi + n)[j] by {
            assert(a@[ai + j] == b@[bi + j]);
        }
        assert(a@.subrange(ai as int, ai + n) =~= b@.subrange(bi as int, bi + n));
    }
    true
}

/// The display-on command bytes.
pub fn display_on_command() -> (r: Vec<u8>)
    ensures
        r@ == display_on_bytes(),
{
    let mut v: Vec<u8> = Vec::new();
    v.push(0xAA);
    v.push(0x55);
    v.push(0xAA);
    v.push(0x55);
    v.push(0x0B);
    v.push(0x00);
    v.push(0x00);
    v.push(0x00);
    proof {
        assert(v@ =~= display_on_bytes());
    }
    v
}

/// The display-off command bytes.
pub fn display_off_command() -> (r: Vec<u8>)
    ensures
        r@ == display_off_bytes(),
{
    let mut v: Vec<u8> = Vec::new();
    v.push(0xAA);
    v.push(0x55);
    v.push(0xAA);
    v.push(0x55);
    v.push(0x0A);
    v.push(0x00);
    v.push(0x00);
    v.push(0x00);
    proof {
        assert(v@ =~= display_off_bytes());
    }
    v
}

fn header_start_command() -> (r: Vec<u8>)
    ensures
        r@ == header_start_bytes(),
{
    let mut v: Vec<u8> = Vec::new();
    v.push(0xAA);
    v.push(0x55);
    v.push(0xAA);
    v.push(0x55);
    v.push(0x05);
    v.push(0x00);
    v.push(0x00);
    v.push(0x00);
    v.push(0x04);
    v.push(0x00);
    v.push(0x0F);
    v.push(0x2F);
    v.push(0x00);
    v.push(0x04);
    v.push(0x0B);
    v.push(0x00);
    proof {
        assert(v@ =~= header_start_bytes());
    }
    v
}

fn header_end_command() -> (r: Vec<u8>)
    ensures
        r@ == header_end_bytes(),
{
    let mut v: Vec<u8> = Vec::new();
    v.push(0xAA);
    v.push(0x55);
    v.push(0xAA);
    v.push(0x55);
    v.push(0x06);
    v.push(0x00);
    v.push(0x00);
    v.push(0x00);
    proof {
        assert(v@ =~= header_end_bytes());
    }
    v
}

/// Transport write retry policy: a failed write is retried while fewer
/// than `SERIAL_RETRY` retries have been spent, then surfaced as fatal.
pub fn should_retry_write(retry: u8) -> (r: bool)
    ensures
        r == (retry < 3),
{
    retry < SERIAL_RETRY
}

/// Whether an initialization response is acceptable: the device must have
/// answered with at least one byte containing the ASCII marker `A`.
pub fn init_response_ok(resp: &Vec<u8>) -> (r: bool)
    ensures
        r == resp@.contains(65u8),
{
    let mut k: usize = 0;
    let n = resp.len();
    while k < n
        invariant
            0 <= k <= n,
            n == resp@.len(),
            forall|j: int| 0 <= j < k ==> resp@[j] != 65u8,
        decreases n - k,
    {
        if resp[k] == 65 {
            assert(resp@[k as int] == 65u8);
            return true;
        }
        k += 1;
    }
    proof {
        assert(!resp@.contains(65u8));
    }
    false
}


/// The view of an optional byte vector.
pub open spec fn opt_view(o: Option<Vec<u8>>) -> Option<Seq<u8>> {
    match o {
        Some(v) => Some(v@),
        None => None,
    }
}

/// Whether chunk `idx` of the frame is covered byte-identically by the
/// cached previous frame.
fn chunk_in_cache(cache: &Option<Vec<u8>>, frame: &Vec<u8>, idx: usize) -> (r: bool)
    requires
        47 * idx < frame@.len(),
        frame@.len() + 94 < 4294967296,
    ensures
        r == spec_chunk_skipped(frame@, opt_view(*cache), idx as int),
{
    let offset = idx * 47;
    let len = frame.len();
    match cache {
        Some(c) => {
            if offset + 47 <= c.len() && offset + 47 <= len {
                let r = range_eq(c, offset, frame, offset, 47);
                proof {
                    assert(47 * (idx as int) == offset);
                    assert(spec_chunk(frame@, idx as int) =~= frame@.subrange(
                        offset as int,
                        offset + 47,
                    ));
                }
                r
            } else {
                proof {
                    assert(47 * (idx as int) == offset);
                    if spec_chunk_skipped(frame@, opt_view(*cache), idx as int) {
                        assert(offset + 47 <= c@.len());
                        assert(c@.subrange(offset as int, offset + 47).len() == 47);
                        assert(spec_chunk(frame@, idx as int).len() == 47);
                        assert(47 * (idx as int) + 47 <= frame@.len());
                        assert(false);
                    }
                }
                false
            }
        },
        None => false,
    }
}

/// The wire message for one chunk.
fn build_chunk_msg(frame: &Vec<u8>, idx: usize) -> (msg: Vec<u8>)
    requires
        47 * idx < frame@.len(),
        frame@.len() + 94 < 4294967296,
    ensures
        msg@ == spec_chunk_msg(frame@, idx as int),
{
    let offset = idx * 47;
    let len = frame.len();
    let chunk_end = if offset + 47 <= len {
        offset + 47
    } else {
        len
    };
    let mut msg: Vec<u8> = Vec::new();
    msg.push(0xAA);
    msg.push(0x55);
    msg.push(0xAA);
    msg.push(0x55);
    msg.push(0x08);
    msg.push(0x00);
    msg.push(0x00);
    msg.push(0x00);
    let o = offset as u32;
    msg.push((o % 256) as u8);
    msg.push(((o / 256) % 256) as u8);
    msg.push(((o / 65536) % 256) as u8);
    msg.push(((o / 16777216) % 256) as u8);
    proof {
        assert(msg@ =~= chunk_header_bytes() + le32_bytes(47 * (idx as int)));
    }
    let mut k = offset;
    while k < chunk_end
        invariant
            offset <= k <= chunk_end <= len,
            len == frame@.len(),
            msg@ == chunk_header_bytes() + le32_bytes(47 * (idx as int)) + frame@.subrange(
                offset as int,
                k as int,
            ),
        decreases chunk_end - k,
    {
        msg.push(frame[k]);
        proof {
            assert(msg@ =~= chunk_header_bytes() + le32_bytes(47 * (idx as int))
                + frame@.subrange(offset as int, k + 1));
        }
        k += 1;
    }
    proof {
        assert(47 * (idx as int) == offset);
        assert(frame@.subrange(offset as int, chunk_end as int) == spec_chunk(
            frame@,
            idx as int,
        ));
    }
    msg
}

/// The protocol state of one display connection: whether the diff cache is
/// active, the previously transmitted frame, and whether the
/// initialization response check is skipped.
pub struct AooScreen {
    enable_cache: bool,
    prev_frame: Option<Vec<u8>>,
    no_init_check: bool,
}

impl AooScreen {
    pub closed spec fn spec_cache_enabled(&self) -> bool {
        self.enable_cache
    }

    pub closed spec fn spec_prev_frame(&self) -> Option<Seq<u8>> {
        match self.prev_frame {
            Some(v) => Some(v@),
            None => None,
        }
    }

    pub closed spec fn spec_no_init_check(&self) -> bool {
        self.no_init_check
    }

    /// The display-on command; also sent as the initialization handshake.
    pub fn on(&self) -> (r: Vec<u8>)
        ensures
            r@ == display_on_bytes(),
    {
        display_on_command()
    }

    /// The display-off command.
    pub fn off(&self) -> (r: Vec<u8>)
        ensures
            r@ == display_off_bytes(),
    {
        display_off_command()
    }

    /// Whether the caller must read and check the initialization response.
    pub fn needs_init_check(&self) -> (r: bool)
        ensures
            r == !self.spec_no_init_check(),
    {
        !self.no_init_check
    }

    pub fn is_cache_enabled(&self) -> (r: bool)
        ensures
            r == self.spec_cache_enabled(),
    {
        self.enable_cache
    }

    /// Switches the diff cache; disabling it clears the prior state, so the
    /// next frame is transmitted in full.
    pub fn enable_cache(&mut self, enable: bool)
        ensures
            final(self).spec_cache_enabled() == enable,
            final(self).spec_prev_frame() == if enable {
                old(self).spec_prev_frame()
            } else {
                None::<Seq<u8>>
            },
            final(self).spec_no_init_check() == old(self).spec_no_init_check(),
    {
        self.enable_cache = enable;
        if !enable {
            self.clear_cache();
        }
    }

    /// Forgets the previously transmitted frame.
    pub fn clear_cache(&mut self)
        ensures
            final(self).spec_cache_enabled() == old(self).spec_cache_enabled(),
            final(self).spec_prev_frame() is None,
            final(self).spec_no_init_check() == old(self).spec_no_init_check(),
    {
        self.prev_frame = None;
    }

    /// Plans the wire messages that transmit one frame: the frame-start
    /// header, a message for every chunk the diff cache does not skip, and
    /// the frame-end header.  With caching enabled the new frame replaces
    /// the cache; a caller whose transmission fails midway should call
    /// `clear_cache` so the next frame is sent in full.
    #[verifier::rlimit(100)]
    pub fn send_image(&mut self, image: &Image) -> (msgs: Vec<Vec<u8>>)
        requires
            image.wf(),
            2 * image@.pixels.len() + 94 < 4294967296,
        ensures
            views_of(msgs@) == spec_frame_messages(
                spec_rgb565_le(image@),
                if old(self).spec_cache_enabled() {
                    old(self).spec_prev_frame()
                } else {
                    None::<Seq<u8>>
                },
            ),
            final(self).spec_cache_enabled() == old(self).spec_cache_enabled(),
            final(self).spec_no_init_check() == old(self).spec_no_init_check(),
            final(self).spec_prev_frame() == if old(self).spec_cache_enabled() {
                Some(spec_rgb565_le(image@))
            } else {
                old(self).spec_prev_frame()
            },
    {
        let frame = to_rgb565_le(image);
        let ghost cache_v: Option<Seq<u8>> = if self.enable_cache {
            self.spec_prev_frame()
        } else {
            None
        };
        let len = frame.len();
        let mut msgs: Vec<Vec<u8>> = Vec::new();
        msgs.push(header_start_command());
        proof {
            assert(views_of(msgs@) =~= seq![header_start_bytes()] + spec_chunk_msgs(
                frame@,
                cache_v,
                0,
            ));
        }
        let mut idx: usize = 0;
        while idx * 47 < len
            invariant
                len == frame@.len(),
                len + 94 < 4294967296,
                0 <= idx,
                idx * 47 <= len + 46,
                self == old(self),
                cache_v == (if old(self).spec_cache_enabled() {
                    old(self).spec_prev_frame()
                } else {
                    None::<Seq<u8>>
                }),
                views_of(msgs@) == seq![header_start_bytes()] + spec_chunk_msgs(
                    frame@,
                    cache_v,
                    idx as int,
                ),
            decreases len + 47 - idx * 47,
        {
            let skip = if self.enable_cache {
                chunk_in_cache(&self.prev_frame, &frame, idx)
            } else {
                false
            };
            proof {
                if self.enable_cache {
                    assert(opt_view(self.prev_frame) == cache_v);
                }
                assert(skip == spec_chunk_skipped(frame@, cache_v, idx as int));
            }
            if !skip {
                let ghost msgs0 = msgs@;
                let msg = build_chunk_msg(&frame, idx);
                msgs.push(msg);
                proof {
                    assert(spec_chunk_msgs(frame@, cache_v, idx + 1) == spec_chunk_msgs(
                        frame@,
                        cache_v,
                        idx as int,
                    ) + seq![spec_chunk_msg(frame@, idx as int)]);
                    assert(msgs@ == msgs0.push(msg));
                    assert(views_of(msgs@).len() == msgs@.len());
                    assert(views_of(msgs0).len() == msgs0.len());
                    assert(msgs0.len() == 1 + spec_chunk_msgs(frame@, cache_v, idx as int).len());
                    assert forall|i: int| 0 <= i < msgs@.len() implies #[trigger] views_of(msgs@)[i]
                        == (seq![header_start_bytes()] + spec_chunk_msgs(
                        frame@,
                        cache_v,
                        idx + 1,
                    ))[i] by {
                        if i < msgs0.len() {
                            assert(views_of(msgs0)[i] == msgs0[i]@);
                        } else {
                            assert(msgs@[i] == msg);
                        }
                    }
                    assert(views_of(msgs@) =~= seq![header_start_bytes()] + spec_chunk_msgs(
                        frame@,
                        cache_v,
                        idx + 1,
                    ));
                }
            } else {
                proof {
                    assert(spec_chunk_msgs(frame@, cache_v, idx + 1) == spec_chunk_msgs(
                        frame@,
                        cache_v,
                        idx as int,
                    ) + Seq::<Seq<u8>>::empty());
                    assert(views_of(msgs@) =~= seq![header_start_bytes()] + spec_chunk_msgs(
                        frame@,
                        cache_v,
                        idx + 1,
                    ));
                }
            }
            idx += 1;
        }
        proof {
            assert(idx as int == spec_num_chunks(len as int)) by {
                let n = idx as int;
                assert(n * 47 >= len);
                if len == 0 {
                    assert(n == 0);
                } else {
                    assert(47 * (n - 1) < len <= 47 * n);
                    vstd::arithmetic::div_mod::lemma_fundamental_div_mod_converse(
                        len + 46,
                        47,
                        n,
                        len + 46 - 47 * n,
                    );
                }
            }
        }
        msgs.push(header_end_command());
        proof {
            assert(views_of(msgs@) =~= spec_frame_messages(frame@, cache_v));
        }
        if self.enable_cache {
            self.prev_frame = Some(frame);
        }
        msgs
    }
}

/// Configuration builder for a display connection.
pub struct AooScreenBuilder {
    /// The amount of time to wait to receive data before timing out; the
    /// connection code applies a one second default.
    pub timeout: Option<std::time::Duration>,
    /// Cache the previous frame sent to the display for future diff
    /// updates.  Enabled by default.
    pub enable_cache: Option<bool>,
    /// Disable the LCD initialization check and only write data to the
    /// display.  Defaults to false.
    pub no_init_check: Option<bool>,
}

impl AooScreenBuilder {
    pub fn new() -> (r: Self)
        ensures
            r.timeout is None,
            r.enable_cache is None,
            r.no_init_check is None,
    {
        AooScreenBuilder { timeout: None, enable_cache: None, no_init_check: None }
    }

    /// Set the amount of time to wait to receive data before timing out.
    pub fn timeout(&mut self, timeout: std::time::Duration)
        ensures
            final(self).timeout == Some(timeout),
            final(self).enable_cache == old(self).enable_cache,
            final(self).no_init_check == old(self).no_init_check,
    {
        self.timeout = Some(timeout);
    }

    /// Cache previous frame sent to display for future diff updates.
    pub fn enable_cache(&mut self, enable: bool)
        ensures
            final(self).enable_cache == Some(enable),
            final(self).timeout == old(self).timeout,
            final(self).no_init_check == old(self).no_init_check,
    {
        self.enable_cache = Some(enable);
    }

    /// Disable LCD initialization check and only write data to the display.
    pub fn no_init_check(&mut self, no_check: bool)
        ensures
            final(self).no_init_check == Some(no_check),
            final(self).timeout == old(self).timeout,
            final(self).enable_cache == old(self).enable_cache,
    {
        self.no_init_check = Some(no_check);
    }

    /// The protocol state for a newly opened connection, with the
    /// configured options applied and an empty diff cache.
    pub fn build(&self) -> (s: AooScreen)
        ensures
            s.spec_cache_enabled() == (self.enable_cache != Some(false)),
            s.spec_prev_frame() is None,
            s.spec_no_init_check() == (self.no_init_check == Some(true)),
    {
        let enable_cache = match self.enable_cache {
            Some(b) => b,
            None => true,
        };
        let no_init_check = match self.no_init_check {
            Some(b) => b,
            None => false,
        };
        AooScreen { enable_cache, prev_frame: None, no_init_check }
    }
}

impl Default for AooScreenBuilder {
    fn default() -> (r: Self)
        ensures
            r.timeout is None,
            r.enable_cache is None,
            r.no_init_check is None,
    {
        AooScreenBuilder::new()
    }
}

proof fn lemma_chunk_msgs_cached_all_skipped(frame: Seq<u8>, n: int)
    requires
        frame.len() % 47 == 0,
        47 * n <= frame.len(),
    ensures
        spec_chunk_msgs(frame, Some(frame), n) == Seq::<Seq<u8>>::empty(),
    decreases n,
{
    if n <= 0 {
    } else {
        lemma_chunk_msgs_cached_all_skipped(frame, n - 1);
        assert(spec_chunk(frame, n - 1) =~= frame.subrange(47 * (n - 1), 47 * (n - 1) + 47));
        assert(spec_chunk_skipped(frame, Some(frame), n - 1));
        assert(spec_chunk_msgs(frame, Some(frame), n) =~= Seq::<Seq<u8>>::empty());
    }
}

/// Diff-cache idempotence: transmitting a frame that is byte-identical to
/// the cached previous frame sends no chunk message at all, only the
/// frame-start and frame-end headers.
pub proof fn lemma_resend_cached_frame_sends_headers_only(frame: Seq<u8>)
    requires
        frame.len() % 47 == 0,
    ensures
        spec_frame_messages(frame, Some(frame)) == seq![header_start_bytes(), header_end_bytes()],
{
    let len = frame.len() as int;
    let n = spec_num_chunks(len);
    vstd::arithmetic::div_mod::lemma_fundamental_div_mod(len, 47);
    let k = len / 47;
    assert(len == 47 * k);
    if len == 0 {
        assert(n == 0);
        lemma_chunk_msgs_cached_all_skipped(frame, n);
    } else {
        vstd::arithmetic::div_mod::lemma_fundamental_div_mod_converse(len + 46, 47, k, 46);
        assert(n == k);
        lemma_chunk_msgs_cached_all_skipped(frame, n);
    }
    assert(seq![header_start_bytes()] + Seq::<Seq<u8>>::empty() + seq![header_end_bytes()]
        =~= seq![header_start_bytes(), header_end_bytes()]);
}

/// Without a cached previous frame every chunk is transmitted
/// unconditionally, in order of ascending offset.
pub proof fn lemma_no_cache_sends_every_chunk(frame: Seq<u8>, n: int)
    requires
        0 <= n,
    ensures
        spec_chunk_msgs(frame, None, n) == Seq::new(n as nat, |i: int| spec_chunk_msg(frame, i)),
    decreases n,
{
    if n == 0 {
        assert(spec_chunk_msgs(frame, None, 0) =~= Seq::new(0, |i: int| spec_chunk_msg(frame, i)));
    } else {
        lemma_no_cache_sends_every_chunk(frame, n - 1);
        assert(spec_chunk_msgs(frame, None, n) =~= Seq::new(
            n as nat,
            |i: int| spec_chunk_msg(frame, i),
        ));
    }
}

} // verus!
