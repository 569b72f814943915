use vstd::prelude::*;

verus! {

/// Output settings of a simulated display: how many physical pixels one
/// logical pixel spans (`scale`), and the gap left between adjacent logical
/// pixels (`pixel_spacing`), both measured in physical pixels.
#[derive(Debug, PartialEq, Eq, Structural, Clone, Copy)]
pub struct OutputSettings {
    /// Pixel scale.
    pub scale: u32,
    /// Spacing between pixels.
    pub pixel_spacing: u32,
}

impl OutputSettings {
    /// A settings value is well formed when every logical pixel renders as
    /// at least one physical pixel.
    pub open spec fn wf(&self) -> bool {
        self.scale >= 1
    }

    /// Physical-pixel stride between the origins of two adjacent logical
    /// pixels.
    pub open spec fn pitch(&self) -> int {
        self.scale + self.pixel_spacing
    }

    /// Physical extent of `d` logical pixels: `d` blocks of `scale` pixels
    /// with `d - 1` gaps of `pixel_spacing` pixels between them.
    pub open spec fn physical_dim(&self, d: int) -> int {
        d * self.scale + (d - 1) * self.pixel_spacing
    }
}

impl Default for OutputSettings {
    /// Default settings: one physical pixel per logical pixel, no spacing.
    fn default() -> (r: Self)
        ensures
            r.scale == 1,
            r.pixel_spacing == 0,
    {
        OutputSettingsBuilder::new().build()
    }
}

/// Staged configuration for [`OutputSettings`]; unset fields fall back to
/// scale 1 and spacing 0 when built.
pub struct OutputSettingsBuilder {
    scale: Option<u32>,
    pixel_spacing: Option<u32>,
}

impl OutputSettingsBuilder {
    /// The scale chosen so far, if any.
    pub closed spec fn spec_scale(&self) -> Option<u32> {
        self.scale
    }

    /// The pixel spacing chosen so far, if any.
    pub closed spec fn spec_pixel_spacing(&self) -> Option<u32> {
        self.pixel_spacing
    }

    #[verifier::type_invariant]
    spec fn inv(&self) -> bool {
        self.scale matches Some(s) ==> s >= 1
    }

    /// Creates a new output settings builder with both fields unset.
    pub fn new() -> (r: Self)
        ensures
            r.spec_scale() is None,
            r.spec_pixel_spacing() is None,
    {
        Self { scale: None, pixel_spacing: None }
    }

    /// Sets the pixel scale.  A zero scale would render nothing, so it is
    /// ruled out by the precondition.
    pub fn scale(self, scale: u32) -> (r: Self)
        requires
            scale >= 1,
        ensures
            r.spec_scale() == Some(scale),
            r.spec_pixel_spacing() == self.spec_pixel_spacing(),
    {
        Self { scale: Some(scale), pixel_spacing: self.pixel_spacing }
    }

    /// Sets the gap between pixels; any value, including 0, is accepted.
    pub fn pixel_spacing(self, pixel_spacing: u32) -> (r: Self)
        ensures
            r.spec_pixel_spacing() == Some(pixel_spacing),
            r.spec_scale() == self.spec_scale(),
    {
        proof {
            use_type_invariant(&self);
        }
        Self { scale: self.scale, pixel_spacing: Some(pixel_spacing) }
    }

    /// Builds the output settings, substituting scale 1 and spacing 0 for
    /// unset fields.
    pub fn build(self) -> (r: OutputSettings)
        ensures
            r.wf(),
            match self.spec_scale() {
                Some(s) => r.scale == s,
                None => r.scale == 1,
            },
            match self.spec_pixel_spacing() {
                Some(p) => r.pixel_spacing == p,
                None => r.pixel_spacing == 0,
            },
    {
        proof {
            use_type_invariant(&self);
        }
        OutputSettings {
            scale: match self.scale {
                Some(s) => s,
                None => 1,
            },
            pixel_spacing: match self.pixel_spacing {
                Some(p) => p,
                None => 0,
            },
        }
    }
}

} // verus!
