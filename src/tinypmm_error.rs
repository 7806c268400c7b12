use vstd::prelude::*;

verus! {

/// The ways in which reading a binary PPM image can fail.
#[derive(Debug, Clone, Copy, PartialEq, Eq, Structural)]
pub enum TinyppmError {
    /// The maximum channel value is not 255 (only 8 bits per channel are read).
    UnsupportedBPP,
    /// The stream does not start with the three header lines, or its magic token is not `P6`.
    InvalidHeader,
    /// The dimension line does not hold two unsigned decimal numbers.
    InvalidImageSize,
    /// The pixel data is not exactly `width * height * 3` bytes long.
    FileSizeMismatch,
    /// The underlying byte source could not be read.
    FileReadError,
    /// The underlying byte source could not be opened.
    FileNotFound,
}

/// The fixed diagnostic text of each kind of failure.
pub open spec fn error_message(e: TinyppmError) -> &'static str {
    match e {
        TinyppmError::InvalidHeader => "File is not proper binary .ppm file!",
        TinyppmError::UnsupportedBPP => "Only 24bpp .ppm images are supported",
        TinyppmError::InvalidImageSize => "Image size in .ppm header is not valid!",
        TinyppmError::FileSizeMismatch => "Image data size does not match image dimensions!",
        TinyppmError::FileReadError => "Error reading file!",
        TinyppmError::FileNotFound => "Unable to open file!",
    }
}

impl TinyppmError {
    /// Builds an error of the given kind.
    pub fn new(kind: TinyppmError) -> (r: TinyppmError)
        ensures
            r == kind,
    {
        kind
    }

    /// Returns the human-readable message of this kind of failure.
    pub fn tinyppm_error_to_message(&self) -> (r: &'static str)
        ensures
            r@ == error_message(*self)@,
    {
        match *self {
            TinyppmError::InvalidHeader => "File is not proper binary .ppm file!",
            TinyppmError::UnsupportedBPP => "Only 24bpp .ppm images are supported",
            TinyppmError::InvalidImageSize => "Image size in .ppm header is not valid!",
            TinyppmError::FileSizeMismatch => "Image data size does not match image dimensions!",
            TinyppmError::FileReadError => "Error reading file!",
            TinyppmError::FileNotFound => "Unable to open file!",
        }
    }
}

} // verus!
