//! The kernel strategy of the downsample engine: a named interpolation kernel
//! and resampling through the `image` crate.

use vstd::prelude::*;
use crate::fit::TargetSize;
use crate::frame::Frame;

verus! {

/// The interpolation kernels that frames can be resampled with.
#[derive(Clone, Copy, Debug, PartialEq, Eq, Structural)]
pub enum FilterType {
    Nearest,
    Triangle,
    CatmullRom,
    Gaussian,
    Lanczos3,
}

/// The name under which each kernel is selected.
pub open spec fn filter_name(f: FilterType) -> Seq<char> {
    match f {
        FilterType::Nearest => "nearest"@,
        FilterType::Triangle => "triangle"@,
        FilterType::CatmullRom => "catmullrom"@,
        FilterType::Gaussian => "gaussian"@,
        FilterType::Lanczos3 => "lanczos3"@,
    }
}

fn same_bytes(a: &[u8], b: &[u8]) -> (r: bool)
    ensures
        r == (a@ == b@),
{
    if a.len() != b.len() {
        return false;
    }
    let mut i: usize = 0;
    while i < a.len()
        invariant
            i <= a@.len(),
            a@.len() == b@.len(),
            a@.subrange(0, i as int) == b@.subrange(0, i as int),
        decreases a@.len() - i,
    {
        if a[i] != b[i] {
            assert(a@[i as int] != b@[i as int]);
            return false;
        }
        assert(a@.subrange(0, i + 1) =~= a@.subrange(0, i as int).push(a@[i as int]));
        assert(b@.subrange(0, i + 1) =~= b@.subrange(0, i as int).push(b@[i as int]));
        i = i + 1;
    }
    assert(a@ =~= a@.subrange(0, i as int));
    assert(b@ =~= b@.subrange(0, i as int));
    true
}

fn same_text(s: &str, t: &str) -> (r: bool)
    ensures
        r == (s@ == t@),
{
    let r = same_bytes(s.as_bytes(), t.as_bytes());
    proof {
        vstd::utf8::encode_utf8_decode_utf8(s@);
        vstd::utf8::encode_utf8_decode_utf8(t@);
    }
    r
}

impl FilterType {
    /// Selects a kernel by its name; any other text is an error.
    pub fn from_str(s: &str) -> (r: Result<FilterType, &'static str>)
        ensures
            r matches Ok(f) ==> s@ == filter_name(f),
            r is Err <==> forall|f: FilterType| s@ != #[trigger] filter_name(f),
            r is Err ==> r == Err::<FilterType, &'static str>("Invalid filter type"),
    {
        if same_text(s, "nearest") {
            assert(s@ == filter_name(FilterType::Nearest));
            Ok(FilterType::Nearest)
        } else if same_text(s, "triangle") {
            assert(s@ == filter_name(FilterType::Triangle));
            Ok(FilterType::Triangle)
        } else if same_text(s, "catmullrom") {
            assert(s@ == filter_name(FilterType::CatmullRom));
            Ok(FilterType::CatmullRom)
        } else if same_text(s, "gaussian") {
            assert(s@ == filter_name(FilterType::Gaussian));
            Ok(FilterType::Gaussian)
        } else if same_text(s, "lanczos3") {
            assert(s@ == filter_name(FilterType::Lanczos3));
            Ok(FilterType::Lanczos3)
        } else {
            assert forall|f: FilterType| s@ != #[trigger] filter_name(f) by {
                match f {
                    FilterType::Nearest => {},
                    FilterType::Triangle => {},
                    FilterType::CatmullRom => {},
                    FilterType::Gaussian => {},
                    FilterType::Lanczos3 => {},
                }
            }
            Err("Invalid filter type")
        }
    }
}

/// The RGBA buffer that `image::imageops::resize` makes of a `w` by `h`
/// buffer `px` when it resamples it to `tw` by `th` with kernel `filter`.
/// Only applied to the kernels of `exact_kernel`.
pub uninterp spec fn kernel_resized(px: Seq<u8>, w: u32, h: u32, tw: u32, th: u32, filter: FilterType) -> Seq<u8>;

/// The kernels whose weights `image` computes with `+`, `-`, `*`, `/`,
/// `abs`, `floor`, `ceil` and `round` alone, which are exactly rounded, so
/// that their result depends on the arguments alone. The other kernels call
/// `sin`, `exp` or `powi`, whose precision std leaves unspecified.
pub open spec fn exact_kernel(filter: FilterType) -> bool {
    filter == FilterType::Nearest || filter == FilterType::Triangle
}

/// What is known of a buffer `r` that the kernel resampler made of the `w`
/// by `h` buffer `px` at `tw` by `th`: its length, the named result for an
/// exact kernel, and a plain copy when the size is unchanged.
pub open spec fn kernel_outcome(r: Seq<u8>, px: Seq<u8>, w: u32, h: u32, tw: u32, th: u32, filter: FilterType) -> bool {
    &&& r.len() == 4 * (tw as int) * (th as int)
    &&& exact_kernel(filter) ==> r == kernel_resized(px, w, h, tw, th, filter)
    &&& tw == w && th == h ==> r == px
}

/// Relies on image::imageops::resize (with ImageBuffer::from_raw and
/// into_raw): the result is a `tw` by `th` RGBA buffer, a plain copy when the
/// size is unchanged, and for the nearest and triangle kernels a function of
/// the source, the sizes and the kernel. The resampler allocates a `w` by
/// `th` intermediate and the `tw` by `th` result, whose lengths must fit in
/// `usize`.
#[verifier::external_body]
fn kernel_resize(px: &Vec<u8>, w: u32, h: u32, tw: u32, th: u32, filter: FilterType) -> (r: Vec<u8>)
    requires
        px@.len() == 4 * (w as int) * (h as int),
        w >= 1,
        h >= 1,
        4 * (tw as int) * (th as int) <= usize::MAX,
        4 * (w as int) * (th as int) <= usize::MAX,
    ensures
        r@.len() == 4 * (tw as int) * (th as int),
        filter == FilterType::Nearest || filter == FilterType::Triangle
            ==> r@ == kernel_resized(px@, w, h, tw, th, filter),
        tw == w && th == h ==> r@ == px@,
{
    let kernel = match filter {
        FilterType::Nearest => image::imageops::FilterType::Nearest,
        FilterType::Triangle => image::imageops::FilterType::Triangle,
        FilterType::CatmullRom => image::imageops::FilterType::CatmullRom,
        FilterType::Gaussian => image::imageops::FilterType::Gaussian,
        FilterType::Lanczos3 => image::imageops::FilterType::Lanczos3,
    };
    let src: image::RgbaImage = image::ImageBuffer::from_raw(w, h, px.clone()).unwrap();
    image::imageops::resize(&src, tw, th, kernel).into_raw()
}

/// A frame that the kernel resampler can take to a `tw` by `th` size: its
/// buffer matches its size, it is not empty, and the resampler's buffers fit
/// in memory addresses.
pub open spec fn kernel_ready(f: Frame, tw: u32, th: u32) -> bool {
    &&& f.wf()
    &&& f.width >= 1
    &&& f.height >= 1
    &&& 4 * (tw as int) * (th as int) <= usize::MAX
    &&& 4 * (f.width as int) * (th as int) <= usize::MAX
}

/// Resamples one frame to `tw` by `th` pixels with the kernel `mode`,
/// keeping its display delay.
pub fn resize_kernel(frame: &Frame, tw: u32, th: u32, mode: FilterType) -> (r: Frame)
    requires
        kernel_ready(*frame, tw, th),
    ensures
        r.wf(),
        r.width == tw,
        r.height == th,
        r.delay_ns == frame.delay_ns,
        kernel_outcome(r.pixels@, frame.pixels@, frame.width, frame.height, tw, th, mode),
{
    let pixels = kernel_resize(&frame.pixels, frame.width, frame.height, tw, th, mode);
    Frame { width: tw, height: th, pixels, delay_ns: frame.delay_ns }
}

/// Resamples every frame of an animation to the target size with the kernel
/// `resize_mode`, in order, keeping each frame's display delay. For the
/// nearest and triangle kernels each result is the named resampled buffer.
pub fn resize_encode(frames: &Vec<Frame>, to: TargetSize, resize_mode: FilterType) -> (r: Vec<Frame>)
    requires
        forall|i: int| 0 <= i < frames@.len() ==> kernel_ready(#[trigger] frames@[i], to.width, to.height),
    ensures
        r@.len() == frames@.len(),
        forall|i: int| 0 <= i < r@.len() ==> {
            &&& (#[trigger] r@[i]).wf()
            &&& r@[i].width == to.width
            &&& r@[i].height == to.height
            &&& r@[i].delay_ns == frames@[i].delay_ns
            &&& kernel_outcome(
                r@[i].pixels@,
                frames@[i].pixels@,
                frames@[i].width,
                frames@[i].height,
                to.width,
                to.height,
                resize_mode,
            )
        },
{
    let mut out: Vec<Frame> = Vec::new();
    let mut i: usize = 0;
    while i < frames.len()
        invariant
            i <= frames@.len(),
            out@.len() == i,
            forall|j: int| 0 <= j < frames@.len() ==> kernel_ready(#[trigger] frames@[j], to.width, to.height),
            forall|j: int| 0 <= j < i ==> {
                &&& (#[trigger] out@[j]).wf()
                &&& out@[j].width == to.width
                &&& out@[j].height == to.height
                &&& out@[j].delay_ns == frames@[j].delay_ns
                &&& kernel_outcome(
                    out@[j].pixels@,
                    frames@[j].pixels@,
                    frames@[j].width,
                    frames@[j].height,
                    to.width,
                    to.height,
                    resize_mode,
                )
            },
        decreases frames@.len() - i,
    {
        let f = resize_kernel(&frames[i], to.width, to.height, resize_mode);
        out.push(f);
        i = i + 1;
    }
    out
}

} // verus!
