//! The presets of the window: its height and the scale of its elements.
use vstd::prelude::*;

verus! {

/// The height of the main content, in pixels, at the smallest preset.
pub const MAIN_HEIGHT: u32 = 600;

/// The screen height that the window is laid out for.
#[derive(PartialEq, Eq, Structural, Copy, Clone, Debug)]
pub enum SizeType {
    H800,
    H1080,
    H1200,
    H1440,
    H1600,
}

impl SizeType {
    /// The height of the main content in pixels.
    pub open spec fn spec_hight(self) -> int {
        match self {
            SizeType::H800 => MAIN_HEIGHT as int,
            SizeType::H1080 => 700,
            SizeType::H1200 => 900,
            SizeType::H1440 => 1100,
            SizeType::H1600 => 1300,
        }
    }

    /// The height of the main content in pixels.
    pub fn get_hight(&self) -> (r: u32)
        ensures
            r == self.spec_hight(),
    {
        match self {
            SizeType::H800 => MAIN_HEIGHT,
            SizeType::H1080 => 700,
            SizeType::H1200 => 900,
            SizeType::H1440 => 1100,
            SizeType::H1600 => 1300,
        }
    }
}

impl Default for SizeType {
    fn default() -> (r: Self)
        ensures
            r == SizeType::H800,
    {
        SizeType::H800
    }
}

/// The scale of the elements of the window.
#[derive(PartialEq, Eq, Structural, Copy, Clone, Debug)]
pub enum ScaleType {
    S1,
    S2,
    S3,
    S4,
}

impl ScaleType {
    /// The scale in percent.
    pub open spec fn spec_dpi(self) -> int {
        match self {
            ScaleType::S1 => 100,
            ScaleType::S2 => 120,
            ScaleType::S3 => 140,
            ScaleType::S4 => 160,
        }
    }

    /// The scale in percent.
    pub fn get_dpi(&self) -> (r: u32)
        ensures
            r == self.spec_dpi(),
    {
        match self {
            ScaleType::S1 => 100,
            ScaleType::S2 => 120,
            ScaleType::S3 => 140,
            ScaleType::S4 => 160,
        }
    }
}

impl Default for ScaleType {
    fn default() -> (r: Self)
        ensures
            r == ScaleType::S1,
    {
        ScaleType::S1
    }
}

/// The chosen presets.
#[derive(PartialEq, Eq, Structural, Copy, Clone, Debug)]
pub struct SettingsApp {
    pub size_type: SizeType,
    pub scale_type: ScaleType,
}

impl SettingsApp {
    /// The height of the main content in scaled pixels, rounded down: the
    /// height of the size preset divided by the scale.
    pub fn scaled_hight(&self) -> (r: u32)
        ensures
            r == self.size_type.spec_hight() * 100 / self.scale_type.spec_dpi(),
    {
        self.size_type.get_hight() * 100 / self.scale_type.get_dpi()
    }
}

impl Default for SettingsApp {
    fn default() -> (r: Self)
        ensures
            r == (SettingsApp { size_type: SizeType::H800, scale_type: ScaleType::S1 }),
    {
        SettingsApp { size_type: SizeType::H800, scale_type: ScaleType::S1 }
    }
}

} // verus!
