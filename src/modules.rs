//! The interfaces that server modules implement, and the image-type check.

use vstd::prelude::*;
use crate::load_balancing::str_eq;

verus! {

/// A server module with a name, a version and a life cycle.
pub trait NginxModule {
    fn name(&self) -> String;

    fn init(&mut self) -> Result<(), String>;

    fn reload(&mut self) -> Result<(), String>;

    fn shutdown(&mut self) -> Result<(), String>;

    fn version(&self) -> String;

    fn is_enabled(&self) -> bool;
}

/// A module that handles events by name.
pub trait EventModule: NginxModule {
    fn handle_event(&mut self, event: &str) -> Result<(), String>;
}

/// A module that answers mail requests.
pub trait MailModule: NginxModule {
    fn handle_mail_request(&mut self, protocol: &str, request: &str) -> Result<String, String>;
}

/// Image handling: which content types are images it can work on.
pub struct ImageProcessor;

impl ImageProcessor {
    pub fn new() -> (r: Self) {
        ImageProcessor
    }

    /// JPEG, PNG, GIF and WebP.
    pub fn is_supported_image_format(&self, content_type: &str) -> (r: bool)
        ensures
            r == (content_type@ == "image/jpeg"@ || content_type@ == "image/png"@ || content_type@ == "image/gif"@
                || content_type@ == "image/webp"@),
    {
        str_eq(content_type, "image/jpeg") || str_eq(content_type, "image/png") || str_eq(content_type, "image/gif")
            || str_eq(content_type, "image/webp")
    }
}

} // verus!
