//! Image generation: reading what the image API answered, and the tool
//! through which the model asks for an image.
use vstd::prelude::*;
use base64::Engine;
use crate::error::{error_message, AppError};
use crate::services::json::{str_member, str_member_of};
use crate::services::url_reader::ToolArgument;

verus! {

/// The image model requests go to.
pub const IMAGE_MODEL: &'static str = "gpt-image-1";

/// Result of image generation: a URL or the raw PNG bytes.
pub enum GeneratedImage {
    Url(String),
    Bytes(Vec<u8>),
}

/// The first image of the API's answer, as it came.
pub enum ImageData {
    B64Json(String),
    Url(String),
}

/// What the standard base64 engine decodes a text to, or its error message.
pub uninterp spec fn base64_standard_decode(text: Seq<char>) -> Result<Seq<u8>, Seq<char>>;

/// `base64::engine::general_purpose::STANDARD.decode`: the bytes, or the
/// error's message. Only that the result is a function of the text is stated.
#[verifier::external_body]
fn decode_base64(text: &str) -> (r: Result<Vec<u8>, String>)
    ensures
        match r {
            Ok(b) => base64_standard_decode(text@) matches Ok(x) && x == b@,
            Err(e) => base64_standard_decode(text@) matches Err(x) && x == e@,
        },
{
    base64::engine::general_purpose::STANDARD.decode(text).map_err(|e| e.to_string())
}

/// The image the API's first answer holds: base64 data decoded, a URL as
/// it is, and an error where the answer held no image or bad data.
pub fn image_from_response(first: Option<ImageData>) -> (r: Result<GeneratedImage, AppError>)
    ensures
        match first {
            Some(ImageData::B64Json(b)) => match base64_standard_decode(b@) {
                Ok(bytes) => r matches Ok(GeneratedImage::Bytes(v)) && v@ == bytes,
                Err(m) => r matches Err(AppError::Image(e)) && e@ == m,
            },
            Some(ImageData::Url(u)) => r matches Ok(GeneratedImage::Url(v)) && v@ == u@,
            None => r matches Err(e) && e is NoImageUrl,
        },
{
    match first {
        Some(ImageData::B64Json(b)) => match decode_base64(b.as_str()) {
            Ok(bytes) => Ok(GeneratedImage::Bytes(bytes)),
            Err(m) => Err(AppError::Image(m)),
        },
        Some(ImageData::Url(u)) => Ok(GeneratedImage::Url(u)),
        None => Err(AppError::NoImageUrl),
    }
}

/// The tool through which the model asks for an image.
pub struct ImageGeneratorTool;

impl ImageGeneratorTool {
    pub fn new() -> (t: ImageGeneratorTool) {
        ImageGeneratorTool
    }

    /// Name under which the model calls the tool.
    pub fn name(&self) -> (s: &'static str)
        ensures
            s@ == "generate_image"@,
    {
        "generate_image"
    }

    /// What the model is told the tool does.
    pub fn description(&self) -> (s: &'static str)
        ensures
            s@ == "Generate an image using AI. Use when the user asks you to create, draw, or generate \
             an image. Provide a detailed, descriptive prompt for the best results."@,
    {
        "Generate an image using AI. Use when the user asks you to create, draw, or generate \
         an image. Provide a detailed, descriptive prompt for the best results."
    }

    /// The prompt a call asks for: the string member `prompt` of its JSON arguments.
    pub fn prompt_argument(&self, arguments: &str) -> (a: ToolArgument)
        ensures
            match a {
                ToolArgument::Valid(p) => str_member_of(arguments@, "prompt"@) == Some(p@),
                ToolArgument::Invalid(m) => str_member_of(arguments@, "prompt"@) is None
                    && m@ == "Invalid arguments: missing 'prompt' field."@,
            },
    {
        match str_member(arguments, "prompt") {
            Some(p) => ToolArgument::Valid(p),
            None => ToolArgument::Invalid(String::from_str("Invalid arguments: missing 'prompt' field.")),
        }
    }

    /// The tool's answer to a generation; image bytes go with the response
    /// as attachments.
    pub fn answer(&self, generated: &Result<GeneratedImage, AppError>) -> (s: String)
        ensures
            s@ == match generated {
                Ok(GeneratedImage::Bytes(_)) => "Image generated successfully. It will be attached to your response."@,
                Ok(GeneratedImage::Url(u)) => "Image generated: "@ + u@,
                Err(e) => "Failed to generate image: "@ + error_message(*e),
            },
    {
        match generated {
            Ok(GeneratedImage::Bytes(_)) => String::from_str(
                "Image generated successfully. It will be attached to your response.",
            ),
            Ok(GeneratedImage::Url(u)) => {
                let mut s = String::from_str("Image generated: ");
                s.append(u.as_str());
                s
            },
            Err(e) => {
                let mut s = String::from_str("Failed to generate image: ");
                s.append(e.message().as_str());
                s
            },
        }
    }
}

} // verus!
