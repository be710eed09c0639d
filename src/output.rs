//! Output geometry: the transform-adjusted pixel size and the scaling strategy.
use vstd::prelude::*;

verus! {

/// How an output is rotated or mirrored.
#[derive(Clone, Copy, Debug, PartialEq, Eq, Structural)]
pub enum OutputTransform {
    Normal,
    Rotate90,
    Rotate180,
    Rotate270,
    Flipped,
    Flipped90,
    Flipped180,
    Flipped270,
    /// A transform this library does not know; treated as `Normal`.
    Unsupported,
}

/// Whether the transform turns the output by a quarter, swapping its axes.
pub open spec fn swaps_axes(t: OutputTransform) -> bool {
    match t {
        OutputTransform::Rotate90 | OutputTransform::Rotate270 | OutputTransform::Flipped90
        | OutputTransform::Flipped270 => true,
        _ => false,
    }
}

/// The pixel size of the surface on an output whose current mode is `width` by
/// `height` under `transform`.
pub fn transformed_size(transform: OutputTransform, width: i32, height: i32) -> (r: (i32, i32))
    ensures
        r == (if swaps_axes(transform) { (height, width) } else { (width, height) }),
{
    match transform {
        OutputTransform::Rotate90 | OutputTransform::Rotate270 | OutputTransform::Flipped90
        | OutputTransform::Flipped270 => (height, width),
        _ => (width, height),
    }
}

/// How a surface of the output's pixel size is mapped to its logical size.
#[derive(Clone, Copy, Debug, PartialEq, Eq, Structural)]
pub enum Scaling {
    /// Pixel size and logical size are equal.
    Unscaled,
    /// The pixel size is the logical size times this integer buffer scale.
    Integer(i32),
    /// Anything else: a viewport maps the buffer onto this logical size.
    Fractional { logical_width: i32, logical_height: i32 },
}

/// The scaling decision table.
pub open spec fn scaling_spec(
    width: int,
    height: int,
    logical_width: int,
    logical_height: int,
    scale: int,
) -> Scaling {
    if width == logical_width && height == logical_height {
        Scaling::Unscaled
    } else if width == logical_width * scale && height == logical_height * scale {
        Scaling::Integer(scale as i32)
    } else {
        Scaling::Fractional {
            logical_width: logical_width as i32,
            logical_height: logical_height as i32,
        }
    }
}

/// Chooses the scaling strategy for a surface of `width` by `height` pixels
/// shown at `logical_width` by `logical_height` with the output's integer
/// scale factor `scale`.
pub fn scaling_for(width: i32, height: i32, logical_width: i32, logical_height: i32, scale: i32) -> (r:
    Scaling)
    ensures
        r == scaling_spec(width as int, height as int, logical_width as int, logical_height as int, scale as int),
{
    if width == logical_width && height == logical_height {
        Scaling::Unscaled
    } else if width as i64 == mul_i32(logical_width, scale) && height as i64 == mul_i32(
        logical_height,
        scale,
    ) {
        Scaling::Integer(scale)
    } else {
        Scaling::Fractional { logical_width, logical_height }
    }
}

fn mul_i32(a: i32, b: i32) -> (r: i64)
    ensures
        r == a as int * b as int,
{
    proof {
        assert(-0x8000_0000 * 0x8000_0000 <= a as int * b as int <= 0x8000_0000 * 0x8000_0000)
            by (nonlinear_arith)
            requires
                -0x8000_0000 <= a <= 0x7fff_ffff,
                -0x8000_0000 <= b <= 0x7fff_ffff,
        ;
    }
    a as i64 * b as i64
}

/// What the display server reports of an output.
pub struct OutputReport {
    pub name: Option<String>,
    /// The size of the current mode, if one is current.
    pub current_mode: Option<(i32, i32)>,
    pub logical_size: Option<(i32, i32)>,
    pub scale_factor: i32,
    pub transform: OutputTransform,
}

/// Why an output cannot carry a background.
#[derive(Clone, Copy, Debug, PartialEq, Eq, Structural)]
pub enum OutputError {
    NoName,
    NoCurrentMode,
    NonPositiveResolution,
    NoLogicalSize,
    NonPositiveLogicalSize,
}

/// The geometry of a background surface on an output.
pub struct OutputSetup {
    pub name: String,
    /// Pixel width after the transform.
    pub width: i32,
    /// Pixel height after the transform.
    pub height: i32,
    pub transform: OutputTransform,
    pub scaling: Scaling,
}

/// The setup owed for a report that names an output with a positive current
/// mode and a positive logical size.
pub open spec fn setup_spec(r: OutputReport, s: OutputSetup) -> bool {
    let (w, h) = r.current_mode.unwrap();
    let (lw, lh) = r.logical_size.unwrap();
    let (tw, th) = if swaps_axes(r.transform) { (h, w) } else { (w, h) };
    &&& s.name@ == r.name.unwrap()@
    &&& s.width == tw
    &&& s.height == th
    &&& s.transform == r.transform
    &&& s.scaling == scaling_spec(tw as int, th as int, lw as int, lh as int, r.scale_factor as int)
}

/// The first check that the report fails, if any.
pub open spec fn report_error(r: OutputReport) -> Option<OutputError> {
    if r.name.is_none() {
        Some(OutputError::NoName)
    } else if r.current_mode.is_none() {
        Some(OutputError::NoCurrentMode)
    } else if r.current_mode.unwrap().0 <= 0 || r.current_mode.unwrap().1 <= 0 {
        Some(OutputError::NonPositiveResolution)
    } else if r.logical_size.is_none() {
        Some(OutputError::NoLogicalSize)
    } else if r.logical_size.unwrap().0 <= 0 || r.logical_size.unwrap().1 <= 0 {
        Some(OutputError::NonPositiveLogicalSize)
    } else {
        None
    }
}

/// Validates an output report and computes its surface geometry.
pub fn output_setup(report: &OutputReport) -> (r: Result<OutputSetup, OutputError>)
    ensures
        report_error(*report) is None ==> r is Ok && setup_spec(*report, r->Ok_0),
        report_error(*report) matches Some(e) ==> r == Err::<OutputSetup, OutputError>(e),
{
    let name = match &report.name {
        Some(name) => name.clone(),
        None => return Err(OutputError::NoName),
    };
    let (width, height) = match report.current_mode {
        Some(mode) => mode,
        None => return Err(OutputError::NoCurrentMode),
    };
    if width <= 0 || height <= 0 {
        return Err(OutputError::NonPositiveResolution);
    }
    let (logical_width, logical_height) = match report.logical_size {
        Some(size) => size,
        None => return Err(OutputError::NoLogicalSize),
    };
    if logical_width <= 0 || logical_height <= 0 {
        return Err(OutputError::NonPositiveLogicalSize);
    }
    let (width, height) = transformed_size(report.transform, width, height);
    let scaling = scaling_for(width, height, logical_width, logical_height, report.scale_factor);
    Ok(OutputSetup { name, width, height, transform: report.transform, scaling })
}

} // verus!
