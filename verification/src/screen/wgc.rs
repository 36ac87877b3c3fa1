//! Frames as they come from the screen.

use vstd::prelude::*;

use crate::gui::popup::{info_popup, show_event, EventSwitch, PopupConfig};
use crate::text::{push_signed, signed_decimal};

verus! {

/// A frame: four bytes for each pixel, row by row from the top.
#[derive(Debug)]
pub struct CapturedFrame {
    pub bgra: Vec<u8>,
    pub width: u32,
    pub height: u32,
}

/// How many frames are held ready.
pub const POOL_BUFFER_COUNT: i32 = 2;

/// The code of a state in which frames cannot be captured.
pub const UNSUPPORTED: u32 = 0x887A_0004;

/// The size of a captured window or screen.
#[derive(Debug, Clone, Copy, PartialEq, Eq, Structural)]
pub struct Extent {
    pub width: i32,
    pub height: i32,
}

/// The size with which capturing starts; it is made up where it is not known.
pub fn first_extent(known: Option<Extent>) -> (r: Extent)
    ensures
        r == match known {
            Some(e) => e,
            None => Extent { width: 1280, height: 720 },
        },
{
    match known {
        Some(e) => e,
        None => Extent { width: 1280, height: 720 },
    }
}

/// There is no next frame: does that end the capture, or is it only not there
/// yet?
pub fn ends_capture(code: u32) -> (r: bool)
    ensures
        r == (code == 0x887A_0004),
{
    code == UNSUPPORTED
}

/// What is done with a frame.
#[derive(Debug, Clone, Copy, PartialEq, Eq, Structural)]
pub enum FrameStep {
    /// It is taken.
    Take,
    /// What is captured has another size now: frames are made in that size from
    /// now on, and this one is skipped, which was still made in the old one.
    Resize(Extent),
}

/// What is done with a frame whose contents have this size, where it is known,
/// while frames are made in the size `pool`.
pub fn frame_step(pool: Extent, content: Option<Extent>) -> (r: FrameStep)
    ensures
        r == match content {
            Some(e) => if e == pool {
                FrameStep::Take
            } else {
                FrameStep::Resize(e)
            },
            None => FrameStep::Take,
        },
{
    match content {
        Some(e) => if e.width != pool.width || e.height != pool.height {
            FrameStep::Resize(e)
        } else {
            FrameStep::Take
        },
        None => FrameStep::Take,
    }
}

/// What the user is told of another size.
pub open spec fn resize_text(from: Extent, to: Extent) -> Seq<char> {
    signed_decimal(from.width as int) + "×"@ + signed_decimal(from.height as int) + " → "@
        + signed_decimal(to.width as int) + "×"@ + signed_decimal(to.height as int)
        + " 로 캡처 해상도가 자동 조정됩니다."@
}

/// The window that tells the user of another size, if events are shown.
pub fn resize_window(switch: &EventSwitch, from: Extent, to: Extent) -> (r: Option<PopupConfig>)
    ensures
        match r {
            Some(p) => switch.on && p@ == info_popup(
                "이벤트"@,
                "캡처 창 크기 변경"@,
                resize_text(from, to),
                4500,
            ),
            None => !switch.on,
        },
{
    let mut t = String::new();
    push_signed(&mut t, from.width as i64);
    t.append("×");
    push_signed(&mut t, from.height as i64);
    t.append(" → ");
    push_signed(&mut t, to.width as i64);
    t.append("×");
    push_signed(&mut t, to.height as i64);
    t.append(" 로 캡처 해상도가 자동 조정됩니다.");
    assert(t@ =~= resize_text(from, to));
    show_event(switch, "캡처 창 크기 변경", t.as_str())
}

/// The rows of a picture that stand in memory at a distance of `pitch` bytes
/// from each other, one directly after the other.
pub open spec fn packed(data: Seq<u8>, pitch: int, stride: int, height: int) -> Seq<u8>
    decreases height,
{
    if height <= 0 {
        Seq::empty()
    } else {
        packed(data, pitch, stride, height - 1) + data.subrange(
            (height - 1) * pitch,
            (height - 1) * pitch + stride,
        )
    }
}

/// A frame made of rows that stand in memory at a distance of `pitch` bytes
/// from each other.
pub fn pack_rows(data: &[u8], pitch: usize, width: u32, height: u32) -> (r: CapturedFrame)
    requires
        4 * width <= usize::MAX,
        forall|y: int|
            0 <= y < height ==> 0 <= #[trigger] (y * pitch) && y * pitch + 4 * width
                <= data@.len(),
    ensures
        r.bgra@ == packed(data@, pitch as int, 4 * width as int, height as int),
        r.width == width,
        r.height == height,
{
    let size: usize = data.len();
    let stride: usize = (width as usize) * 4;
    let mut out: Vec<u8> = Vec::new();
    let mut y: u32 = 0;
    assert(out@ =~= packed(data@, pitch as int, stride as int, 0));
    while y < height
        invariant
            y <= height,
            stride == 4 * width,
            size == data@.len(),
            forall|k: int|
                0 <= k < height ==> 0 <= #[trigger] (k * pitch) && k * pitch + 4 * width
                    <= data@.len(),
            out@ == packed(data@, pitch as int, stride as int, y as int),
        decreases height - y,
    {
        let ghost before = out@;
        assert(0 <= (y as int) * pitch && (y as int) * pitch + 4 * width <= data@.len());
        let start: usize = (y as usize) * pitch;
        let mut x: usize = 0;
        while x < stride
            invariant
                x <= stride,
                size == data@.len(),
                start + stride <= size,
                out@ == before + data@.subrange(start as int, start + x),
            decreases stride - x,
        {
            out.push(data[start + x]);
            x += 1;
            assert(out@ =~= before + data@.subrange(start as int, start + x));
        }
        assert((y + 1 - 1) * pitch == start);
        y += 1;
    }
    CapturedFrame { bgra: out, width, height }
}

/// The pixels of the frame are those in memory: byte `x` of row `y` of the
/// frame stands at `x` in row `y` of the memory.
pub proof fn law_packing_keeps_pixels(
    data: Seq<u8>,
    pitch: int,
    stride: int,
    height: int,
    x: int,
    y: int,
)
    requires
        0 <= x < stride,
        0 <= y < height,
        forall|k: int|
            0 <= k < height ==> 0 <= #[trigger] (k * pitch) && k * pitch + stride <= data.len(),
    ensures
        packed(data, pitch, stride, height).len() == height * stride,
        packed(data, pitch, stride, height)[y * stride + x] == data[y * pitch + x],
    decreases height,
{
    lemma_packed_len(data, pitch, stride, height);
    lemma_packed_len(data, pitch, stride, height - 1);
    let head = packed(data, pitch, stride, height - 1);
    assert(0 <= (height - 1) * pitch && (height - 1) * pitch + stride <= data.len());
    if y == height - 1 {
        assert(y * stride + x - head.len() == x);
    } else {
        law_packing_keeps_pixels(data, pitch, stride, height - 1, x, y);
        assert(0 <= y * stride + x < (height - 1) * stride) by (nonlinear_arith)
            requires
                0 <= x < stride,
                0 <= y < height - 1,
        ;
    }
}

proof fn lemma_packed_len(data: Seq<u8>, pitch: int, stride: int, height: int)
    requires
        0 <= stride,
        0 <= height,
        forall|k: int|
            0 <= k < height ==> 0 <= #[trigger] (k * pitch) && k * pitch + stride <= data.len(),
    ensures
        packed(data, pitch, stride, height).len() == height * stride,
    decreases height,
{
    if height > 0 {
        lemma_packed_len(data, pitch, stride, height - 1);
        assert(0 <= (height - 1) * pitch && (height - 1) * pitch + stride <= data.len());
        assert((height - 1) * stride + stride == height * stride) by (nonlinear_arith);
    } else {
        assert(0 * stride == 0);
    }
}

} // verus!
