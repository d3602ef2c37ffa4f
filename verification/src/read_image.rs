//! The image-reading tool as the tool registry sees it: a tool for models
//! without image input, which hands the image to a configured vision model
//! and returns that model's description as text.

use crate::text::copy_chars;
use vstd::prelude::*;

verus! {

/// The vision model that describes images, and its provider.
#[derive(Clone, Debug)]
pub struct VisionBackend {
    pub model: String,
    pub provider: String,
}

impl VisionBackend {
    pub fn new(model: &str, provider: &str) -> (b: VisionBackend)
        ensures
            b.model@ == model@,
            b.provider@ == provider@,
    {
        VisionBackend { model: copy_chars(model), provider: copy_chars(provider) }
    }
}

/// The tool, for a main model and an optional vision backend.
#[derive(Clone, Debug)]
pub struct ReadImageTool {
    pub main_model: String,
    pub vision: Option<VisionBackend>,
}

impl ReadImageTool {
    pub fn new(main_model: &str, vision: Option<VisionBackend>) -> (t: ReadImageTool)
        ensures
            t.main_model@ == main_model@,
            t.vision == vision,
    {
        ReadImageTool { main_model: copy_chars(main_model), vision }
    }

    /// The tool takes a file path, not an image, so models without image
    /// input keep it.
    pub fn requires_image_input(&self) -> (b: bool)
        ensures
            !b,
    {
        false
    }

    /// The tool is advertised eagerly, never hidden behind the tool search.
    pub fn is_deferred(&self) -> (b: bool)
        ensures
            !b,
    {
        false
    }
}

} // verus!
