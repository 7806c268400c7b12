use crate::tinypmm_error::TinyppmError;
use vstd::prelude::*;

verus! {

/// One pixel as a 32-bit word: red in bits 16..24, green in bits 8..16, blue in bits 0..8.
pub open spec fn pack_rgb(r: u8, g: u8, b: u8) -> u32 {
    (r as nat * 0x10000 + g as nat * 0x100 + b as nat) as u32
}

/// The packed pixels of a buffer of consecutive red, green, blue byte triples.
pub open spec fn packed_pixels(rgb: Seq<u8>) -> Seq<u32> {
    Seq::new(rgb.len() / 3, |i: int| pack_rgb(rgb[3 * i], rgb[3 * i + 1], rgb[3 * i + 2]))
}

proof fn lemma_pack_rgb_bits(r: u8, g: u8, b: u8)
    ensures
        (b as u32) + ((g as u32) << 8u32) + ((r as u32) << 16u32) == pack_rgb(r, g, b),
        pack_rgb(r, g, b) == ((r as u32) << 16u32) | ((g as u32) << 8u32) | (b as u32),
        pack_rgb(r, g, b) < 0x100_0000,
{
    assert((b as u32) + ((g as u32) << 8u32) + ((r as u32) << 16u32) == (r as u32) * 0x10000u32
        + (g as u32) * 0x100u32 + (b as u32)) by (bit_vector);
    assert(((r as u32) << 16u32) | ((g as u32) << 8u32) | (b as u32) == (r as u32) * 0x10000u32
        + (g as u32) * 0x100u32 + (b as u32)) by (bit_vector);
}

/// Converts 24-bit RGB data (8 bits per channel) into 32-bit packed pixels.
pub fn convert_rgb_to_argb(width: usize, height: usize, rgb_buffer: &[u8]) -> (r: Vec<u32>)
    requires
        rgb_buffer@.len() == width * height * 3,
    ensures
        r@.len() == width * height,
        r@ == packed_pixels(rgb_buffer@),
{
    let ghost rgb = rgb_buffer@;
    let count: usize = rgb_buffer.len() / 3;
    assert(count == width * height);
    let mut buffer: Vec<u32> = Vec::with_capacity(count);
    let mut index: usize = 0;
    while index < count
        invariant
            rgb == rgb_buffer@,
            rgb.len() == count * 3,
            rgb.len() <= usize::MAX,
            index <= count,
            buffer@.len() == index,
            forall|i: int| 0 <= i < index ==> buffer@[i] == packed_pixels(rgb)[i],
        decreases count - index,
    {
        assert(index * 3 + 2 < count * 3) by (nonlinear_arith)
            requires
                index < count,
        ;
        let pixel: usize = index * 3;
        let r = rgb_buffer[pixel];
        let g = rgb_buffer[pixel + 1];
        let b = rgb_buffer[pixel + 2];
        proof {
            lemma_pack_rgb_bits(r, g, b);
        }
        let color: u32 = (b as u32) + ((g as u32) << 8u32) + ((r as u32) << 16u32);
        buffer.push(color);
        index += 1;
    }
    assert(buffer@ =~= packed_pixels(rgb));
    buffer
}

/// An ASCII decimal digit.
pub open spec fn is_digit(c: u8) -> bool {
    0x30 <= c <= 0x39
}

/// Every byte of `s` is a decimal digit.
pub open spec fn all_digits(s: Seq<u8>) -> bool {
    forall|i: int| 0 <= i < s.len() ==> #[trigger] is_digit(s[i])
}

/// The number written by a string of decimal digits, most significant first.
pub open spec fn digits_value(s: Seq<u8>) -> nat
    decreases s.len(),
{
    if s.len() == 0 {
        0
    } else {
        digits_value(s.drop_last()) * 10 + (s.last() - 0x30) as nat
    }
}

/// The digits of an unsigned decimal, after an optional leading `+`.
pub open spec fn unsigned_digits(s: Seq<u8>) -> Seq<u8> {
    if s.len() > 0 && s[0] == 0x2b {
        s.drop_first()
    } else {
        s
    }
}

/// `s` is an unsigned decimal whose value fits in a `usize`: an optional `+`, then
/// one or more digits, and nothing else.
pub open spec fn is_usize_text(s: Seq<u8>) -> bool {
    let d = unsigned_digits(s);
    &&& d.len() > 0
    &&& all_digits(d)
    &&& digits_value(d) <= usize::MAX
}

/// The value of an unsigned decimal.
pub open spec fn usize_text_value(s: Seq<u8>) -> nat {
    digits_value(unsigned_digits(s))
}

/// The value of a string of digits is at least the value of any of its prefixes.
proof fn lemma_digits_value_prefix(s: Seq<u8>, k: int)
    requires
        all_digits(s),
        0 <= k <= s.len(),
    ensures
        digits_value(s.subrange(0, k)) <= digits_value(s),
    decreases s.len(),
{
    if k < s.len() {
        let t = s.drop_last();
        assert(all_digits(t)) by {
            assert forall|i: int| 0 <= i < t.len() implies #[trigger] is_digit(t[i]) by {
                assert(is_digit(s[i]));
            }
        }
        lemma_digits_value_prefix(t, k);
        assert(t.subrange(0, k) =~= s.subrange(0, k));
    } else {
        assert(s.subrange(0, k) =~= s);
    }
}

/// Parses an unsigned decimal into a `usize`, as Rust's integer parsing does: an optional
/// `+`, then one or more digits; `None` on any other text or when the value overflows.
pub fn parse_usize(text: &[u8]) -> (r: Option<usize>)
    ensures
        r == (if is_usize_text(text@) {
            Some(usize_text_value(text@) as usize)
        } else {
            None::<usize>
        }),
{
    let ghost s = text@;
    let start: usize = if text.len() > 0 && text[0] == 0x2b {
        1
    } else {
        0
    };
    let ghost d = unsigned_digits(s);
    assert(d =~= s.subrange(start as int, s.len() as int));
    if start >= text.len() {
        return None;
    }
    let mut value: usize = 0;
    let mut i: usize = start;
    while i < text.len()
        invariant
            s == text@,
            d == unsigned_digits(s),
            d == s.subrange(start as int, s.len() as int),
            start <= i <= s.len(),
            all_digits(s.subrange(start as int, i as int)),
            value == digits_value(s.subrange(start as int, i as int)),
        decreases s.len() - i,
    {
        let c = text[i];
        if c < 0x30 || c > 0x39 {
            assert(d[i - start] == c);
            assert(!is_digit(d[i - start]));
            assert(!all_digits(d));
            return None;
        }
        let ghost prefix = s.subrange(start as int, i + 1);
        assert(prefix.drop_last() =~= s.subrange(start as int, i as int));
        assert(all_digits(prefix)) by {
            assert forall|j: int| 0 <= j < prefix.len() implies #[trigger] is_digit(prefix[j]) by {
                if j < prefix.len() - 1 {
                    assert(prefix[j] == s.subrange(start as int, i as int)[j]);
                }
            }
        }
        let digit: usize = (c - 0x30) as usize;
        match value.checked_mul(10) {
            Some(tens) => match tens.checked_add(digit) {
                Some(next) => {
                    value = next;
                },
                None => {
                    proof {
                        if all_digits(d) {
                            lemma_digits_value_prefix(d, i + 1 - start);
                            assert(d.subrange(0, i + 1 - start) =~= prefix);
                        }
                    }
                    return None;
                },
            },
            None => {
                proof {
                    if all_digits(d) {
                        lemma_digits_value_prefix(d, i + 1 - start);
                        assert(d.subrange(0, i + 1 - start) =~= prefix);
                    }
                }
                return None;
            },
        }
        i += 1;
    }
    assert(s.subrange(start as int, i as int) =~= d);
    Some(value)
}

/// An ASCII whitespace byte: space, tab, line feed, vertical tab, form feed or carriage return.
pub open spec fn is_space(c: u8) -> bool {
    c == 0x20 || (0x09 <= c <= 0x0d)
}

/// The maximal runs of non-whitespace bytes of `s`, in order.
pub open spec fn words(s: Seq<u8>) -> Seq<Seq<u8>>
    decreases s.len(),
{
    if s.len() == 0 {
        seq![]
    } else {
        let w = words(s.drop_last());
        if is_space(s.last()) {
            w
        } else if s.len() >= 2 && !is_space(s[s.len() - 2]) {
            w.update(w.len() - 1, w.last().push(s.last()))
        } else {
            w.push(seq![s.last()])
        }
    }
}

/// What the dimension line of a header gives: the first word as width and the last word
/// as height, when the line holds at least two words and both are unsigned decimals that
/// fit in a `usize`.
pub open spec fn image_size(line: Seq<u8>) -> Result<(usize, usize), TinyppmError> {
    let w = words(line);
    if w.len() >= 2 && is_usize_text(w[0]) && is_usize_text(w.last()) {
        Ok((usize_text_value(w[0]) as usize, usize_text_value(w.last()) as usize))
    } else {
        Err(TinyppmError::InvalidImageSize)
    }
}

/// Reads the dimension line of a header: its first and last whitespace-separated words
/// are the width and the height.
pub fn extract_image_size(size: &[u8]) -> (r: Result<(usize, usize), TinyppmError>)
    ensures
        r == image_size(size@),
{
    let ghost s = size@;
    let mut count: usize = 0;
    let mut first_start: usize = 0;
    let mut first_end: usize = 0;
    let mut last_start: usize = 0;
    let mut last_end: usize = 0;
    let mut i: usize = 0;
    while i < size.len()
        invariant
            s == size@,
            i <= s.len(),
            count == words(s.take(i as int)).len(),
            count <= i,
            count > 0 ==> {
                &&& first_start <= first_end <= i
                &&& last_start <= last_end <= i
                &&& words(s.take(i as int))[0] == s.subrange(first_start as int, first_end as int)
                &&& words(s.take(i as int)).last() == s.subrange(
                    last_start as int,
                    last_end as int,
                )
            },
            count == 1 ==> first_start == last_start && first_end == last_end,
            count > 0 && i > 0 && !is_space(s[i - 1]) ==> last_end == i,
            count == 0 && i > 0 ==> is_space(s[i - 1]),
        decreases s.len() - i,
    {
        let c = size[i];
        let ghost next = s.take(i + 1);
        assert(next.drop_last() =~= s.take(i as int));
        if c == 0x20 || (0x09 <= c && c <= 0x0d) {
        } else if i > 0 && !(size[i - 1] == 0x20 || (0x09 <= size[i - 1] && size[i - 1] <= 0x0d)) {
            assert(next[next.len() - 2] == s[i - 1]);
            last_end = i + 1;
            if count == 1 {
                first_end = i + 1;
            }
            assert(s.subrange(last_start as int, last_end as int) =~= s.subrange(
                last_start as int,
                i as int,
            ).push(c));
        } else {
            if i > 0 {
                assert(next[next.len() - 2] == s[i - 1]);
            }
            last_start = i;
            last_end = i + 1;
            if count == 0 {
                first_start = i;
                first_end = i + 1;
            }
            count = count + 1;
            assert(s.subrange(i as int, i + 1) =~= seq![c]);
        }
        i += 1;
    }
    assert(s.take(i as int) =~= s);
    if count < 2 {
        return Err(TinyppmError::InvalidImageSize);
    }
    let width = parse_usize(&size[first_start..first_end]);
    let height = parse_usize(&size[last_start..last_end]);
    match (width, height) {
        (Some(width), Some(height)) => Ok((width, height)),
        _ => Err(TinyppmError::InvalidImageSize),
    }
}

/// The magic token of a binary RGB pixmap: `P6`.
pub open spec fn ppm_binary_header() -> Seq<u8> {
    seq![0x50u8, 0x36u8]
}

/// A maximum channel value of exactly 255, that is 8 bits per channel.
pub open spec fn is_8bit_maxval(line: Seq<u8>) -> bool {
    is_usize_text(line) && usize_text_value(line) == 255
}

/// Checks that the magic token of a header is `P6`.
pub fn validate_ppm_image(ppm_id: &[u8]) -> (r: Result<(), TinyppmError>)
    ensures
        r == (if ppm_id@ == ppm_binary_header() {
            Ok::<(), TinyppmError>(())
        } else {
            Err(TinyppmError::InvalidHeader)
        }),
{
    if ppm_id.len() == 2 && ppm_id[0] == 0x50 && ppm_id[1] == 0x36 {
        assert(ppm_id@ =~= ppm_binary_header());
        Ok(())
    } else {
        Err(TinyppmError::InvalidHeader)
    }
}

/// Checks whether the maximum channel value of a header is 255, that is 8 bits per
/// channel (24 bits per pixel).
pub fn is_image_24bpp(bpp_str: &[u8]) -> (r: bool)
    ensures
        r == is_8bit_maxval(bpp_str@),
{
    match parse_usize(bpp_str) {
        Some(bpp) => bpp == 255,
        None => false,
    }
}

/// Checks that the maximum channel value of a header is 255.
pub fn validate_color_depth(bpp_str: &[u8]) -> (r: Result<(), TinyppmError>)
    ensures
        r == (if is_8bit_maxval(bpp_str@) {
            Ok::<(), TinyppmError>(())
        } else {
            Err(TinyppmError::UnsupportedBPP)
        }),
{
    if is_image_24bpp(bpp_str) {
        Ok(())
    } else {
        Err(TinyppmError::UnsupportedBPP)
    }
}

/// The index of the first line feed of `s` at or after `from`, or `s.len()` when there is none.
pub open spec fn line_end(s: Seq<u8>, from: int) -> int
    decreases s.len() - from,
{
    if from < 0 || from >= s.len() {
        s.len() as int
    } else if s[from] == 0x0a {
        from
    } else {
        line_end(s, from + 1)
    }
}

proof fn lemma_line_end_bounds(s: Seq<u8>, from: int)
    requires
        0 <= from,
    ensures
        from <= line_end(s, from) <= s.len() || (from > s.len() && line_end(s, from) == s.len()),
        line_end(s, from) < s.len() ==> s[line_end(s, from)] == 0x0a,
    decreases s.len() - from,
{
    if from < s.len() && s[from] != 0x0a {
        lemma_line_end_bounds(s, from + 1);
    }
}

/// Where the first, second and third line of `s` end.
pub open spec fn header_line_ends(s: Seq<u8>) -> (int, int, int) {
    let e1 = line_end(s, 0);
    let e2 = line_end(s, e1 + 1);
    let e3 = line_end(s, e2 + 1);
    (e1, e2, e3)
}

/// `s` starts with three lines, each ended by a line feed.
pub open spec fn has_header_lines(s: Seq<u8>) -> bool {
    header_line_ends(s).2 < s.len()
}

/// The text of the line of `s` from `start` to `end`, without the carriage return that may
/// stand before its line feed.
pub open spec fn line_text(s: Seq<u8>, start: int, end: int) -> Seq<u8> {
    let l = s.subrange(start, end);
    if l.len() > 0 && l.last() == 0x0d {
        l.drop_last()
    } else {
        l
    }
}

/// The first line of `s`: the magic token.
pub open spec fn magic_line(s: Seq<u8>) -> Seq<u8> {
    line_text(s, 0, header_line_ends(s).0)
}

/// The second line of `s`: the dimensions.
pub open spec fn size_line(s: Seq<u8>) -> Seq<u8> {
    line_text(s, header_line_ends(s).0 + 1, header_line_ends(s).1)
}

/// The third line of `s`: the maximum channel value.
pub open spec fn maxval_line(s: Seq<u8>) -> Seq<u8> {
    line_text(s, header_line_ends(s).1 + 1, header_line_ends(s).2)
}

/// Where the pixel data of `s` starts: right after the third line feed.
pub open spec fn body_start(s: Seq<u8>) -> int {
    header_line_ends(s).2 + 1
}

/// The pixel data of `s`: everything after the three header lines.
pub open spec fn body(s: Seq<u8>) -> Seq<u8> {
    s.subrange(body_start(s), s.len() as int)
}

/// What the header of `s` gives: the width and height of the image, or why it is refused.
pub open spec fn header_info(s: Seq<u8>) -> Result<(usize, usize), TinyppmError> {
    if !has_header_lines(s) || magic_line(s) != ppm_binary_header() {
        Err(TinyppmError::InvalidHeader)
    } else {
        match image_size(size_line(s)) {
            Err(e) => Err(e),
            Ok(size) => if is_8bit_maxval(maxval_line(s)) {
                Ok(size)
            } else {
                Err(TinyppmError::UnsupportedBPP)
            },
        }
    }
}

/// Finds the first line feed at or after `from`, or the end of the data.
fn find_line_end(data: &[u8], from: usize) -> (r: usize)
    requires
        from <= data@.len(),
    ensures
        r == line_end(data@, from as int),
{
    let mut i: usize = from;
    while i < data.len() && data[i] != 0x0a
        invariant
            from <= i <= data@.len(),
            line_end(data@, i as int) == line_end(data@, from as int),
        decreases data@.len() - i,
    {
        i += 1;
    }
    i
}

/// The line of `data` from `start` to `end`, without a carriage return at its end.
fn line_at(data: &[u8], start: usize, end: usize) -> (r: &[u8])
    requires
        start <= end <= data@.len(),
    ensures
        r@ == line_text(data@, start as int, end as int),
{
    if start < end && data[end - 1] == 0x0d {
        let line = &data[start..end - 1];
        assert(line@ =~= data@.subrange(start as int, end as int).drop_last());
        line
    } else {
        &data[start..end]
    }
}

/// Reads the three header lines (magic token, dimensions, maximum channel value) at the
/// start of `data`. On success returns the width, the height and the index at which the
/// pixel data starts.
pub fn read_image_info(data: &[u8]) -> (r: Result<(usize, usize, usize), TinyppmError>)
    ensures
        match header_info(data@) {
            Ok((width, height)) => r == Ok::<(usize, usize, usize), TinyppmError>(
                (width, height, body_start(data@) as usize),
            ),
            Err(e) => r == Err::<(usize, usize, usize), TinyppmError>(e),
        },
        r matches Ok(info) ==> info.2 == body_start(data@) && info.2 <= data@.len(),
{
    let ghost s = data@;
    let end1 = find_line_end(data, 0);
    proof {
        lemma_line_end_bounds(s, 0);
    }
    let ppm_id = line_at(data, 0, end1);
    if end1 >= data.len() {
        proof {
            lemma_line_end_bounds(s, end1 + 1);
            lemma_line_end_bounds(s, line_end(s, end1 + 1) + 1);
        }
        return Err(TinyppmError::InvalidHeader);
    }
    let end2 = find_line_end(data, end1 + 1);
    proof {
        lemma_line_end_bounds(s, end1 + 1);
    }
    if end2 >= data.len() {
        proof {
            lemma_line_end_bounds(s, end2 + 1);
        }
        return Err(TinyppmError::InvalidHeader);
    }
    let end3 = find_line_end(data, end2 + 1);
    proof {
        lemma_line_end_bounds(s, end2 + 1);
    }
    if end3 >= data.len() {
        return Err(TinyppmError::InvalidHeader);
    }
    validate_ppm_image(ppm_id)?;
    let image_size = line_at(data, end1 + 1, end2);
    let (width, height) = extract_image_size(image_size)?;
    let color_depth = line_at(data, end2 + 1, end3);
    validate_color_depth(color_depth)?;
    Ok((width, height, end3 + 1))
}

/// The mathematical content of a decoded image.
pub struct ImageView {
    pub width: nat,
    pub height: nat,
    pub pixels: Seq<u32>,
}

/// A decoded image: its dimensions and one packed 32-bit pixel per position, row by row.
#[derive(Debug)]
pub struct PPMImage {
    height: usize,
    width: usize,
    pixels: Vec<u32>,
}

impl View for PPMImage {
    type V = ImageView;

    closed spec fn view(&self) -> ImageView {
        ImageView { width: self.width as nat, height: self.height as nat, pixels: self.pixels@ }
    }
}

impl PPMImage {
    #[verifier::type_invariant]
    spec fn pixel_count_matches(self) -> bool {
        self.pixels@.len() == self.width * self.height
    }

    /// Returns image height
    pub fn height(&self) -> (r: usize)
        ensures
            r == self@.height,
    {
        self.height
    }

    /// Returns image width
    pub fn width(&self) -> (r: usize)
        ensures
            r == self@.width,
    {
        self.width
    }

    /// Returns image data as packed 32-bit pixels (8 bits per channel, top byte zero):
    /// exactly one per position.
    pub fn pixels(&self) -> (r: &Vec<u32>)
        ensures
            r@ == self@.pixels,
            r@.len() == self@.width * self@.height,
    {
        proof {
            use_type_invariant(self);
        }
        &self.pixels
    }
}

/// What decoding the bytes `s` of a binary PPM stream gives: the image, or why it is refused.
pub open spec fn decoded(s: Seq<u8>) -> Result<ImageView, TinyppmError> {
    match header_info(s) {
        Err(e) => Err(e),
        Ok((width, height)) => if body(s).len() == width * height * 3 {
            Ok(ImageView { width: width as nat, height: height as nat, pixels: packed_pixels(body(s)) })
        } else {
            Err(TinyppmError::FileSizeMismatch)
        },
    }
}

/// Decodes a whole binary PPM stream: three header lines, then exactly
/// `width * height * 3` bytes of red, green, blue data.
pub fn decode_image(data: &[u8]) -> (r: Result<PPMImage, TinyppmError>)
    ensures
        match decoded(data@) {
            Ok(image) => r matches Ok(img) && img@ == image,
            Err(e) => r matches Err(err) && err == e,
        },
{
    let (width, height, start) = match read_image_info(data) {
        Ok(info) => info,
        Err(e) => {
            return Err(e);
        },
    };
    assert(header_info(data@) == Ok::<(usize, usize), TinyppmError>((width, height)));
    let rgb_buffer = &data[start..data.len()];
    assert(rgb_buffer@ == body(data@));
    let expected = match width.checked_mul(height) {
        Some(count) => count.checked_mul(3),
        None => None,
    };
    match expected {
        Some(size) if size == rgb_buffer.len() => {
            let pixels = convert_rgb_to_argb(width, height, rgb_buffer);
            let image = PPMImage { height, width, pixels };
            assert(image@ == ImageView {
                width: width as nat,
                height: height as nat,
                pixels: packed_pixels(body(data@)),
            });
            Ok(image)
        },
        _ => {
            proof {
                if width * height <= usize::MAX {
                    assert(width * height * 3 > usize::MAX || width * height * 3 != rgb_buffer@.len());
                } else {
                    assert(width * height * 3 > usize::MAX) by (nonlinear_arith)
                        requires
                            width * height > usize::MAX,
                    ;
                }
            }
            Err(TinyppmError::FileSizeMismatch)
        },
    }
}

/// The stream `P6\n1 1\n255\n` followed by one pixel's red, green and blue bytes.
pub open spec fn single_pixel_stream(r: u8, g: u8, b: u8) -> Seq<u8> {
    seq![0x50u8, 0x36u8, 0x0au8, 0x31u8, 0x20u8, 0x31u8, 0x0au8, 0x32u8, 0x35u8, 0x35u8, 0x0au8, r, g, b]
}

/// Decoding a one-pixel image gives that pixel as `(r << 16) | (g << 8) | b`, for every
/// red, green and blue byte.
pub proof fn lemma_single_pixel_round_trip(r: u8, g: u8, b: u8)
    ensures
        decoded(single_pixel_stream(r, g, b)) == Ok::<ImageView, TinyppmError>(
            ImageView { width: 1, height: 1, pixels: seq![((r as u32) << 16u32) | ((g as u32) << 8u32) | (b as u32)] },
        ),
{
    let s = single_pixel_stream(r, g, b);
    reveal_with_fuel(line_end, 12);
    reveal_with_fuel(digits_value, 4);
    reveal_with_fuel(words, 4);
    assert(header_line_ends(s) == (2int, 6int, 10int));
    assert(magic_line(s) =~= ppm_binary_header());
    let size = size_line(s);
    assert(size =~= seq![0x31u8, 0x20u8, 0x31u8]);
    assert(size.drop_last().drop_last() =~= seq![0x31u8]);
    assert(size.drop_last() =~= seq![0x31u8, 0x20u8]);
    assert(seq![0x31u8].drop_last() =~= Seq::<u8>::empty());
    assert(words(size) =~= seq![seq![0x31u8], seq![0x31u8]]);
    assert(is_usize_text(seq![0x31u8]) && usize_text_value(seq![0x31u8]) == 1);
    let maxval = maxval_line(s);
    assert(maxval =~= seq![0x32u8, 0x35u8, 0x35u8]);
    assert(maxval.drop_last() =~= seq![0x32u8, 0x35u8]);
    assert(maxval.drop_last().drop_last() =~= seq![0x32u8]);
    assert(seq![0x32u8].drop_last() =~= Seq::<u8>::empty());
    assert(is_8bit_maxval(maxval));
    assert(image_size(size) == Ok::<(usize, usize), TinyppmError>((1usize, 1usize)));
    assert(header_info(s) == Ok::<(usize, usize), TinyppmError>((1usize, 1usize)));
    assert(body(s) =~= seq![r, g, b]);
    lemma_pack_rgb_bits(r, g, b);
    assert(packed_pixels(body(s)) =~= seq![pack_rgb(r, g, b)]);
}

/// A stream whose first line is not exactly `P6` is refused as an invalid header, whatever
/// follows it.
pub proof fn lemma_wrong_magic_rejected(s: Seq<u8>)
    requires
        magic_line(s) != ppm_binary_header(),
    ensures
        decoded(s) == Err::<ImageView, TinyppmError>(TinyppmError::InvalidHeader),
{
}

/// A stream whose maximum channel value is not 255 is never decoded; when the rest of its
/// header is sound it is refused for its bit depth.
pub proof fn lemma_maxval_other_than_255_rejected(s: Seq<u8>)
    requires
        !is_8bit_maxval(maxval_line(s)),
    ensures
        decoded(s) is Err,
        has_header_lines(s) && magic_line(s) == ppm_binary_header() && image_size(size_line(s)) is Ok
            ==> decoded(s) == Err::<ImageView, TinyppmError>(TinyppmError::UnsupportedBPP),
{
}

/// Pixel data of any length other than `width * height * 3` bytes is refused as a size
/// mismatch: never truncated, never padded.
pub proof fn lemma_wrong_body_length_rejected(s: Seq<u8>, width: usize, height: usize)
    requires
        header_info(s) == Ok::<(usize, usize), TinyppmError>((width, height)),
        body(s).len() != width * height * 3,
    ensures
        decoded(s) == Err::<ImageView, TinyppmError>(TinyppmError::FileSizeMismatch),
{
}

/// Every decoded image holds exactly `width * height` pixels, made from exactly
/// `width * height * 3` bytes of pixel data.
pub proof fn lemma_exact_pixel_count(s: Seq<u8>)
    ensures
        decoded(s) matches Ok(image) ==> {
            &&& image.pixels.len() == image.width * image.height
            &&& body(s).len() == image.width * image.height * 3
        },
{
    if let Ok((width, height)) = header_info(s) {
        let n = width * height;
        assert((n * 3) / 3 == n) by (nonlinear_arith);
    }
}

} // verus!
