//! Image files: PNG stills and animated GIFs, as bytes.

use vstd::prelude::*;

verus! {

/// Why an image file could not be made.
#[derive(Clone, Copy, PartialEq, Eq, Structural, Debug)]
pub enum ImageError {
    /// An animation needs at least one frame.
    NoFrames,
    /// A frame has fewer pixels than the animation is wide and tall.
    FrameTooSmall,
    /// The encoder refused the image.
    Encoder,
}

/// An error of the `png` crate's encoder.
#[verifier::external_type_specification]
#[verifier::external_body]
pub struct ExPngEncodingError(png::EncodingError);

/// An error of the `gif` crate's encoder.
#[verifier::external_type_specification]
#[verifier::external_body]
pub struct ExGifEncodingError(gif::EncodingError);

/// The `gif` crate's encoder, collecting the blocks of a file in memory.
#[verifier::external_body]
pub struct GifBlocks {
    encoder: gif::Encoder<Vec<u8>>,
}

/// The file that the `png` crate's encoder writes for an image of 8-bit RGB
/// pixels.
pub uninterp spec fn png_file(width: u32, height: u32, rgb: Seq<u8>) -> Seq<u8>;

/// The bytes that a `gif` encoder has written.
pub uninterp spec fn gif_written(blocks: GifBlocks) -> Seq<u8>;

/// The compressed image block that `gif::Encoder::write_frame` writes for a
/// buffer of palette indices.
pub uninterp spec fn gif_image_block(buffer: Seq<u8>) -> Seq<u8>;

/// Whether an image has pixels, and three bytes for each of them.
pub open spec fn is_image(width: u32, height: u32, rgb: Seq<u8>) -> bool {
    width > 0 && height > 0 && rgb.len() == 3 * width * height
}

/// Encodes with `png::Encoder`: colour type RGB, 8 bits, one image.  The file
/// is a function of the size and the pixels.  An image without pixels, or of
/// another number of bytes than three per pixel, is refused, and no other:
/// writing to memory does not fail.
#[verifier::external_body]
fn png_bytes(width: u32, height: u32, rgb: &Vec<u8>) -> (file: Result<Vec<u8>, png::EncodingError>)
    requires
        1 + 3 * width <= usize::MAX,
        3 * width * height <= usize::MAX,
    ensures
        file is Ok <==> is_image(width, height, rgb@),
        file matches Ok(bytes) ==> bytes@ == png_file(width, height, rgb@),
{
    let mut out: Vec<u8> = Vec::new();
    let mut encoder = png::Encoder::new(&mut out, width, height);
    encoder.set_color(png::ColorType::Rgb);
    encoder.set_depth(png::BitDepth::Eight);
    let mut writer = encoder.write_header()?;
    writer.write_image_data(rgb)?;
    writer.finish()?;
    Ok(out)
}

/// The two bytes of a number, low byte first.
pub open spec fn low_high(n: u16) -> Seq<u8> {
    seq![(n % 256) as u8, (n / 256) as u8]
}

/// What a GIF file with a palette of 256 colours starts with: the signature,
/// the size, the palette's description and the palette.
pub open spec fn gif_head(width: u16, height: u16, palette: Seq<u8>) -> Seq<u8> {
    seq![0x47u8, 0x49, 0x46, 0x38, 0x39, 0x61] + low_high(width) + low_high(height) + seq![
        0xf7u8,
        0,
        0,
    ] + palette
}

/// The block that makes a GIF repeat for ever.
pub open spec fn gif_repeat() -> Seq<u8> {
    seq![
        0x21u8,
        0xff,
        11,
        0x4e,
        0x45,
        0x54,
        0x53,
        0x43,
        0x41,
        0x50,
        0x45,
        0x32,
        0x2e,
        0x30,
        3,
        1,
        0,
        0,
        0,
    ]
}

/// What a frame starts with: its delay (in hundredths of a second) and its
/// size.
pub open spec fn gif_frame_head(width: u16, height: u16, delay: u16) -> Seq<u8> {
    seq![0x21u8, 0xf9, 4, 4] + low_high(delay) + seq![0u8, 0, 0x2c, 0, 0, 0, 0] + low_high(width)
        + low_high(height) + seq![0u8]
}

/// Starts a file with `gif::Encoder::new`, which writes the head.  It refuses
/// only palettes of more than 256 colours, and writing to memory does not fail.
#[verifier::external_body]
fn gif_start(width: u16, height: u16, palette: &Vec<u8>) -> (blocks: Result<
    GifBlocks,
    gif::EncodingError,
>)
    requires
        palette@.len() == 768,
    ensures
        blocks is Ok,
        gif_written(blocks->Ok_0) == gif_head(width, height, palette@),
{
    let encoder = gif::Encoder::new(Vec::new(), width, height, palette)?;
    Ok(GifBlocks { encoder })
}

/// Makes the animation repeat for ever with `gif::Encoder::set_repeat`, which
/// writes a block; writing to memory does not fail.
#[verifier::external_body]
fn gif_set_repeat(blocks: &mut GifBlocks) -> (done: Result<(), gif::EncodingError>)
    ensures
        done is Ok,
        gif_written(*final(blocks)) == gif_written(*old(blocks)) + gif_repeat(),
{
    blocks.encoder.set_repeat(gif::Repeat::Infinite)
}

/// Adds a frame with `gif::Encoder::write_frame`, which refuses a buffer that
/// is too small for the frame and writes nothing then.  Whether it finds the
/// memory for a large enough one is left open.
#[verifier::external_body]
fn gif_write_frame(
    blocks: &mut GifBlocks,
    width: u16,
    height: u16,
    delay: u16,
    buffer: &Vec<u8>,
) -> (done: Result<(), gif::EncodingError>)
    requires
        width * height > 0 || buffer@.len() == 0,
    ensures
        done is Ok ==> gif_written(*final(blocks)) == gif_written(*old(blocks)) + gif_frame_head(
            width,
            height,
            delay,
        ) + gif_image_block(buffer@),
        buffer@.len() < width * height ==> done is Err && gif_written(*final(blocks))
            == gif_written(*old(blocks)),
{
    let mut frame = gif::Frame::default();
    frame.width = width;
    frame.height = height;
    frame.delay = delay;
    frame.buffer = std::borrow::Cow::Borrowed(buffer);
    blocks.encoder.write_frame(&frame)
}

/// Ends the file with `gif::Encoder::into_inner`, which writes the trailer and
/// hands back what was written; writing to memory does not fail.
#[verifier::external_body]
fn gif_finish(blocks: GifBlocks) -> (file: Result<Vec<u8>, gif::EncodingError>)
    ensures
        file is Ok,
        file->Ok_0@ == gif_written(blocks).push(0x3b),
{
    blocks.encoder.into_inner()
}

/// What becomes of a still, given what its encoder answers.
pub fn still_outcome(file: Result<Vec<u8>, png::EncodingError>) -> (outcome: Result<
    Vec<u8>,
    ImageError,
>)
    ensures
        match file {
            Ok(bytes) => outcome == Ok::<Vec<u8>, ImageError>(bytes),
            Err(_) => outcome == Err::<Vec<u8>, ImageError>(ImageError::Encoder),
        },
{
    match file {
        Ok(bytes) => Ok(bytes),
        Err(_) => Err(ImageError::Encoder),
    }
}

/// A PNG file of 8-bit RGB pixels.
pub fn encode_png(width: u32, height: u32, rgb: &Vec<u8>) -> (file: Result<Vec<u8>, ImageError>)
    requires
        1 + 3 * width <= usize::MAX,
        3 * width * height <= usize::MAX,
    ensures
        match file {
            Ok(bytes) => is_image(width, height, rgb@) && bytes@ == png_file(width, height, rgb@),
            Err(e) => !is_image(width, height, rgb@) && e == ImageError::Encoder,
        },
{
    still_outcome(png_bytes(width, height, rgb))
}

/// Delay, in hundredths of a second, of frame `i` of `n`: the last one is
/// held, and none is shorter than two.
pub open spec fn frame_delay(i: int, n: int, delay_ms: u32, hold_ms: u32) -> u16 {
    let ms = if i + 1 == n {
        hold_ms
    } else {
        delay_ms
    };
    let hundredths = ms / 10;
    if hundredths < 2 {
        2
    } else {
        (hundredths % 0x1_0000) as u16
    }
}

/// Every frame but the last is shown for the delay and the last one for the
/// hold, in whole hundredths of a second and at least two of them, up to the
/// longest time that a file can say.
pub proof fn the_last_frame_is_held(i: int, n: int, delay_ms: u32, hold_ms: u32)
    requires
        0 <= i < n,
    ensures
        ({
            let delay = frame_delay(i, n, delay_ms, hold_ms);
            let ms = if i == n - 1 {
                hold_ms
            } else {
                delay_ms
            };
            &&& 20 <= ms < 655_360 ==> 10 * delay <= ms < 10 * delay + 10
            &&& ms < 20 ==> delay == 2
        }),
{
}

/// The blocks of frame `i`: its head, with its delay, and its pixels.
pub open spec fn gif_frame(
    width: u16,
    height: u16,
    frames: Seq<Vec<u8>>,
    delay_ms: u32,
    hold_ms: u32,
    i: int,
) -> Seq<u8> {
    gif_frame_head(width, height, frame_delay(i, frames.len() as int, delay_ms, hold_ms))
        + gif_image_block(frames[i]@)
}

proof fn frames_are_joined(
    width: u16,
    height: u16,
    frames: Seq<Vec<u8>>,
    delay_ms: u32,
    hold_ms: u32,
    m: nat,
)
    ensures
        gif_frames(width, height, frames, delay_ms, hold_ms, m) == Seq::new(
            m,
            |i: int| gif_frame(width, height, frames, delay_ms, hold_ms, i),
        ).flatten_alt(),
    decreases m,
{
    let parts = Seq::new(m, |i: int| gif_frame(width, height, frames, delay_ms, hold_ms, i));
    if m > 0 {
        frames_are_joined(width, height, frames, delay_ms, hold_ms, (m - 1) as nat);
        assert(parts.drop_last() =~= Seq::new(
            (m - 1) as nat,
            |i: int| gif_frame(width, height, frames, delay_ms, hold_ms, i),
        ));
        assert(gif_frames(width, height, frames, delay_ms, hold_ms, m) =~= gif_frames(
            width,
            height,
            frames,
            delay_ms,
            hold_ms,
            (m - 1) as nat,
        ) + gif_frame(width, height, frames, delay_ms, hold_ms, m - 1));
    }
}

/// An animation is its head with the palette, the block that repeats it, all its
/// frames in order, each with its own delay and pixels, and the trailer.
pub proof fn animations_hold_their_frames_in_order(
    width: u16,
    height: u16,
    palette: Seq<u8>,
    frames: Seq<Vec<u8>>,
    delay_ms: u32,
    hold_ms: u32,
)
    ensures
        gif_file(width, height, palette, frames, delay_ms, hold_ms) == gif_head(
            width,
            height,
            palette,
        ) + gif_repeat() + Seq::new(
            frames.len(),
            |i: int| gif_frame(width, height, frames, delay_ms, hold_ms, i),
        ).flatten() + seq![0x3bu8],
{
    let parts = Seq::new(
        frames.len(),
        |i: int| gif_frame(width, height, frames, delay_ms, hold_ms, i),
    );
    frames_are_joined(width, height, frames, delay_ms, hold_ms, frames.len());
    parts.lemma_flatten_and_flatten_alt_are_equivalent();
    assert(gif_file(width, height, palette, frames, delay_ms, hold_ms) =~= gif_head(
        width,
        height,
        palette,
    ) + gif_repeat() + parts.flatten() + seq![0x3bu8]);
}

/// The blocks of the first `m` frames.
pub open spec fn gif_frames(
    width: u16,
    height: u16,
    frames: Seq<Vec<u8>>,
    delay_ms: u32,
    hold_ms: u32,
    m: nat,
) -> Seq<u8>
    decreases m,
{
    if m == 0 {
        Seq::empty()
    } else {
        gif_frames(width, height, frames, delay_ms, hold_ms, (m - 1) as nat) + gif_frame_head(
            width,
            height,
            frame_delay(m - 1, frames.len() as int, delay_ms, hold_ms),
        ) + gif_image_block(frames[m - 1]@)
    }
}

/// An animated GIF file that repeats for ever.
pub open spec fn gif_file(
    width: u16,
    height: u16,
    palette: Seq<u8>,
    frames: Seq<Vec<u8>>,
    delay_ms: u32,
    hold_ms: u32,
) -> Seq<u8> {
    (gif_head(width, height, palette) + gif_repeat() + gif_frames(
        width,
        height,
        frames,
        delay_ms,
        hold_ms,
        frames.len(),
    )).push(0x3b)
}

fn delay_of(i: usize, n: usize, delay_ms: u32, hold_ms: u32) -> (delay: u16)
    requires
        i < n,
    ensures
        delay == frame_delay(i as int, n as int, delay_ms, hold_ms),
{
    let ms: u32 = if i + 1 == n {
        hold_ms
    } else {
        delay_ms
    };
    let hundredths: u32 = ms / 10;
    if hundredths < 2 {
        2
    } else {
        (hundredths % 0x1_0000) as u16
    }
}

/// What becomes of an animation, given what its encoder answers to a step.
pub fn step_outcome(done: Result<(), gif::EncodingError>) -> (outcome: Result<(), ImageError>)
    ensures
        match done {
            Ok(_) => outcome == Ok::<(), ImageError>(()),
            Err(_) => outcome == Err::<(), ImageError>(ImageError::Encoder),
        },
{
    match done {
        Ok(_) => Ok(()),
        Err(_) => Err(ImageError::Encoder),
    }
}

/// Whether the first `m` frames have a pixel for every place.
pub open spec fn frames_fill(width: u16, height: u16, frames: Seq<Vec<u8>>, m: int) -> bool {
    forall|i: int| 0 <= i < m ==> (#[trigger] frames[i])@.len() >= width * height
}

/// Whether no frame has a pixel.
pub open spec fn frames_are_empty(frames: Seq<Vec<u8>>) -> bool {
    forall|i: int| 0 <= i < frames.len() ==> (#[trigger] frames[i])@.len() == 0
}

/// An animated GIF of frames given as palette indices, `delay_ms` apart, the
/// last one held for `hold_ms`, with a palette of 256 colours.  Only a frame
/// for which the encoder finds no memory makes it fail where no frame is too
/// small.
pub fn encode_gif(
    width: u16,
    height: u16,
    palette: &Vec<u8>,
    frames: &Vec<Vec<u8>>,
    delay_ms: u32,
    hold_ms: u32,
) -> (file: Result<Vec<u8>, ImageError>)
    requires
        palette@.len() == 768,
        (width > 0 && height > 0) || frames_are_empty(frames@),
    ensures
        match file {
            Ok(bytes) => frames@.len() > 0 && frames_fill(
                width,
                height,
                frames@,
                frames@.len() as int,
            ) && bytes@ == gif_file(width, height, palette@, frames@, delay_ms, hold_ms),
            Err(ImageError::NoFrames) => frames@.len() == 0,
            Err(ImageError::FrameTooSmall) => !frames_fill(
                width,
                height,
                frames@,
                frames@.len() as int,
            ),
            Err(ImageError::Encoder) => frames@.len() > 0 && frames_fill(width, height, frames@, 1),
        },
{
    if frames.len() == 0 {
        return Err(ImageError::NoFrames);
    }
    proof {
        if width > 0 && height > 0 {
            assert(width * height > 0) by (nonlinear_arith)
                requires
                    width > 0,
                    height > 0,
            ;
        }
        assert(0 <= width * height <= 0xffff * 0xffff) by (nonlinear_arith)
            requires
                0 <= width <= 0xffff,
                0 <= height <= 0xffff,
        ;
    }
    let pixels: u64 = width as u64 * height as u64;
    let mut blocks: GifBlocks = match gif_start(width, height, palette) {
        Ok(b) => b,
        Err(_) => {
            return Err(ImageError::Encoder);
        },
    };
    if let Err(e) = step_outcome(gif_set_repeat(&mut blocks)) {
        return Err(e);
    }
    let ghost head = gif_head(width, height, palette@) + gif_repeat();
    proof {
        assert(head + Seq::<u8>::empty() =~= head);
    }
    let mut i: usize = 0;
    while i < frames.len()
        invariant
            frames@.len() > 0,
            i <= frames@.len(),
            width * height > 0 || frames_are_empty(frames@),
            pixels == width * height,
            gif_written(blocks) == head + gif_frames(
                width,
                height,
                frames@,
                delay_ms,
                hold_ms,
                i as nat,
            ),
            frames_fill(width, height, frames@, i as int),
        decreases frames@.len() - i,
    {
        if (frames[i].len() as u64) < pixels {
            assert(frames@[i as int]@.len() < width * height);
            return Err(ImageError::FrameTooSmall);
        }
        let delay: u16 = delay_of(i, frames.len(), delay_ms, hold_ms);
        let done = gif_write_frame(&mut blocks, width, height, delay, &frames[i]);
        if let Err(e) = step_outcome(done) {
            return Err(e);
        }
        i = i + 1;
        proof {
            assert(gif_written(blocks) =~= head + gif_frames(
                width,
                height,
                frames@,
                delay_ms,
                hold_ms,
                i as nat,
            ));
        }
    }
    match gif_finish(blocks) {
        Ok(bytes) => Ok(bytes),
        Err(_) => Err(ImageError::Encoder),
    }
}

} // verus!
