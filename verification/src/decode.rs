//! Decoding a complete frame and holding it to the expected geometry.

use vstd::prelude::*;
use jpeg_decoder::Decoder;

verus! {

/// Width of every frame that the camera sends, in pixels.
pub const FRAME_WIDTH: u16 = 1280;

/// Height of every frame that the camera sends, in pixels.
pub const FRAME_HEIGHT: u16 = 720;

/// Bytes of one decoded frame: three for each pixel, row by row, no padding.
pub const FRAME_BYTES: usize = 2764800;

/// What the decoder made of a byte stream: the size that the stream declares
/// and the pixel bytes.
pub struct DecodedImage {
    pub width: u16,
    pub height: u16,
    pub pixels: Vec<u8>,
}

/// The pixel bytes of one whole frame: three for each pixel, row by row from
/// the top, without padding. A value of this type always has exactly
/// `FRAME_BYTES` bytes and is never changed once it is made.
#[derive(Debug)]
pub struct DecodedFrame {
    pixels: Vec<u8>,
}

impl View for DecodedFrame {
    type V = Seq<u8>;

    closed spec fn view(&self) -> Seq<u8> {
        self.pixels@
    }
}

impl DecodedFrame {
    #[verifier::type_invariant]
    spec fn whole(self) -> bool {
        self.pixels@.len() == FRAME_BYTES
    }

    /// The frame with these pixel bytes, if they are as many as a frame has.
    pub fn new(pixels: Vec<u8>) -> (frame: Option<DecodedFrame>)
        ensures
            match frame {
                Some(frame) => pixels@.len() == FRAME_BYTES && frame@ == pixels@,
                None => pixels@.len() != FRAME_BYTES,
            },
    {
        if pixels.len() == FRAME_BYTES {
            Some(DecodedFrame { pixels })
        } else {
            None
        }
    }

    /// The pixel bytes.
    pub fn pixels(&self) -> (bytes: &[u8])
        ensures
            bytes@ == self@,
            bytes@.len() == FRAME_BYTES,
    {
        proof {
            use_type_invariant(self);
        }
        self.pixels.as_slice()
    }

    /// The pixel bytes, by value.
    pub fn into_pixels(self) -> (bytes: Vec<u8>)
        ensures
            bytes@ == self@,
            bytes@.len() == FRAME_BYTES,
    {
        proof {
            use_type_invariant(&self);
        }
        self.pixels
    }
}

/// What a reader may find published: the empty frame, which stands for "no
/// frame yet", or the pixel bytes of one whole frame.
pub open spec fn empty_or_whole(frame: Seq<u8>) -> bool {
    frame.len() == 0 || frame.len() == FRAME_BYTES
}

/// Why a complete frame was not published.
#[derive(Clone, Copy, Debug, PartialEq, Eq, Structural)]
pub enum DecodeError {
    /// The bytes are not a valid encoding of an image.
    InvalidEncoding,
    /// The image is not as wide as a frame must be.
    WrongWidth,
    /// The image is not as high as a frame must be.
    WrongHeight,
    /// The image does not have three bytes for each pixel.
    WrongPixelCount,
}

/// What the JPEG decoder makes of `bytes`: nothing where it reports an error,
/// else the width, the height and the pixel bytes.
pub uninterp spec fn jpeg_decoded(bytes: Seq<u8>) -> Option<(u16, u16, Seq<u8>)>;

/// A decoder result as plain values.
pub open spec fn image_model(image: Option<DecodedImage>) -> Option<(u16, u16, Seq<u8>)> {
    match image {
        Some(image) => Some((image.width, image.height, image.pixels@)),
        None => None,
    }
}

/// Whether `bytes` begins with the two bytes that start every JPEG stream.
pub open spec fn starts_as_jpeg(bytes: Seq<u8>) -> bool {
    bytes.len() >= 2 && bytes[0] == 0xFFu8 && bytes[1] == 0xD8u8
}

/// The frame that a decoder result stands for, or the reason why it stands
/// for none. The checks are made in the order in which they stand here.
pub open spec fn checked_frame(image: Option<(u16, u16, Seq<u8>)>) -> Result<Seq<u8>, DecodeError> {
    match image {
        None => Err(DecodeError::InvalidEncoding),
        Some((width, height, pixels)) => {
            if width != FRAME_WIDTH {
                Err(DecodeError::WrongWidth)
            } else if height != FRAME_HEIGHT {
                Err(DecodeError::WrongHeight)
            } else if pixels.len() != FRAME_BYTES {
                Err(DecodeError::WrongPixelCount)
            } else {
                Ok(pixels)
            }
        },
    }
}

/// A frame, or the reason for none, with the pixel bytes as a sequence.
pub open spec fn frame_model(frame: Result<DecodedFrame, DecodeError>) -> Result<
    Seq<u8>,
    DecodeError,
> {
    match frame {
        Ok(pixels) => Ok(pixels@),
        Err(error) => Err(error),
    }
}

/// Runs `jpeg_decoder::Decoder` over `bytes`: `Decoder::new`, `decode`, and
/// after a successful decode `info` for the size. The result is what the
/// decoder makes of these bytes and of nothing else: the crate is built with
/// its feature `platform_independent`, with which only the code runs that
/// gives the same output on every machine. A stream that does not begin with
/// the start-of-image marker `FF D8` is an error to the decoder, which looks
/// at those two bytes first.
#[verifier::external_body]
fn jpeg_decode(bytes: &[u8]) -> (image: Option<DecodedImage>)
    ensures
        image_model(image) == jpeg_decoded(bytes@),
        !starts_as_jpeg(bytes@) ==> image.is_none(),
{
    let mut decoder = Decoder::new(bytes);
    match decoder.decode() {
        Ok(pixels) => match decoder.info() {
            Some(info) => Some(DecodedImage { width: info.width, height: info.height, pixels }),
            None => None,
        },
        Err(_) => None,
    }
}

/// Holds a decoder result to the geometry of a frame.
pub fn check_frame(image: Option<DecodedImage>) -> (frame: Result<DecodedFrame, DecodeError>)
    ensures
        frame_model(frame) == checked_frame(image_model(image)),
        frame is Ok ==> frame->Ok_0@.len() == FRAME_BYTES,
{
    match image {
        None => Err(DecodeError::InvalidEncoding),
        Some(image) => {
            if image.width != FRAME_WIDTH {
                Err(DecodeError::WrongWidth)
            } else if image.height != FRAME_HEIGHT {
                Err(DecodeError::WrongHeight)
            } else if image.pixels.len() != FRAME_BYTES {
                Err(DecodeError::WrongPixelCount)
            } else {
                Ok(DecodedFrame { pixels: image.pixels })
            }
        },
    }
}

/// Decodes the bytes of a complete frame. The answer is the pixel bytes where
/// the decoder accepts the stream and the image has the geometry of a frame,
/// and the first reason against it otherwise.
pub fn decode_jpeg_frame(bytes: &[u8]) -> (frame: Result<DecodedFrame, DecodeError>)
    ensures
        frame_model(frame) == checked_frame(jpeg_decoded(bytes@)),
        !starts_as_jpeg(bytes@) ==> frame matches Err(DecodeError::InvalidEncoding),
        frame is Ok ==> frame->Ok_0@.len() == FRAME_BYTES,
{
    check_frame(jpeg_decode(bytes))
}

} // verus!
