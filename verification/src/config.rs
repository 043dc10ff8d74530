//! The configuration one conversion call reads: paths for image placement
//! and output relocation, and the naming strategy. Passed explicitly —
//! the library keeps no process-wide state.

use vstd::prelude::*;
use crate::image::ImageProcessingMode;

verus! {

/// Read-only settings for one conversion call.
pub struct Settings {
    /// Where the speech recognizer's model lives (used by the audio
    /// collaborator, not by this library).
    pub model_path: String,
    /// Where saved images go; empty means inline base64 placement.
    pub image_path: String,
    /// The eventual Markdown output file, when known.
    pub output_path: Option<String>,
    /// Whether image naming is delegated to the external naming service.
    pub is_ai_enpower: bool,
    /// The credential for the naming service, when enabled.
    pub doubao_api_key: Option<String>,
}

impl Default for Settings {
    /// The default settings: inline base64 images, timestamp naming.
    fn default() -> (r: Settings)
        ensures
            r.model_path@.len() == 0,
            r.image_path@.len() == 0,
            r.output_path is None,
            r.is_ai_enpower == false,
            r.doubao_api_key is None,
    {
        Settings {
            model_path: String::new(),
            image_path: String::new(),
            output_path: None,
            is_ai_enpower: false,
            doubao_api_key: None,
        }
    }
}

impl Settings {
    /// The image placement these settings call for: inline base64 exactly
    /// when no image directory is configured.
    pub fn placement_mode(&self) -> (r: ImageProcessingMode)
        ensures
            r is Base64 <==> self.image_path@.len() == 0,
    {
        if self.image_path.as_str().unicode_len() == 0 {
            ImageProcessingMode::Base64
        } else {
            ImageProcessingMode::SaveToFile
        }
    }
}

} // verus!
