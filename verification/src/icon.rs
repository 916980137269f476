//! Icons of files: under which name they are kept, and how their pixels become an image
//! that a page can show.

use crate::outside;
use crate::outside::{base64_encode, to_lowercase};
use vstd::prelude::*;

verus! {

broadcast use vstd::string::group_string_axioms;

/// The bytes of a number, the lowest first.
pub open spec fn le32(n: u32) -> Seq<u8> {
    seq![
        (n % 256) as u8,
        (n / 0x100 % 256) as u8,
        (n / 0x1_0000 % 256) as u8,
        (n / 0x100_0000) as u8,
    ]
}

/// A number reads back from its bytes.
pub proof fn le32_reads_back(n: u32)
    ensures
        crate::bytes::u32_at(le32(n), 0) == n,
{
}

/// Adds the bytes of a number.
fn push_u32(data: &mut Vec<u8>, n: u32)
    ensures
        final(data)@ == old(data)@ + le32(n),
{
    data.push((n % 256) as u8);
    data.push((n / 0x100 % 256) as u8);
    data.push((n / 0x1_0000 % 256) as u8);
    data.push((n / 0x100_0000) as u8);
    assert(data@ =~= old(data)@ + le32(n));
}

/// The size of an image of 32 bits to a pixel, with its header.
pub open spec fn bmp_size(width: u32, height: u32) -> int {
    54 + 4 * width * height
}

/// The header of an image of 32 bits to a pixel.
pub open spec fn bmp_header(width: u32, height: u32) -> Seq<u8> {
    seq![0x42u8, 0x4Du8] + le32(bmp_size(width, height) as u32) + le32(0) + le32(54) + le32(40)
        + le32(width) + le32(height) + seq![1u8, 0u8, 32u8, 0u8] + le32(0) + le32(
        (4 * width * height) as u32,
    ) + le32(0) + le32(0) + le32(0) + le32(0)
}

/// The first `n` rows of the pixels, the last of them first.
pub open spec fn rows_upward(pixels: Seq<u8>, width: u32, n: nat) -> Seq<u8>
    decreases n,
{
    if n == 0 {
        seq![]
    } else {
        pixels.subrange(4 * width * (n - 1), 4 * width * n) + rows_upward(
            pixels,
            width,
            (n - 1) as nat,
        )
    }
}

/// The rows have four bytes to a pixel.
proof fn upward_len(pixels: Seq<u8>, width: u32, n: nat)
    requires
        4 * width * n <= pixels.len(),
    ensures
        rows_upward(pixels, width, n).len() == 4 * width * n,
    decreases n,
{
    if n > 0 {
        let w = 4 * width as int;
        assert(w * (n - 1) + w == w * n && 0 <= w * (n - 1)) by (nonlinear_arith)
            requires
                w >= 0,
                n >= 1,
        ;
        upward_len(pixels, width, (n - 1) as nat);
    } else {
        assert(4 * width * n == 0) by (nonlinear_arith)
            requires
                n == 0,
        ;
    }
}

/// What the image holds.
pub open spec fn bmp_of(pixels: Seq<u8>, width: u32, height: u32) -> Seq<u8> {
    bmp_header(width, height) + rows_upward(pixels, width, height as nat)
}

/// The image tells its own size, width and height, and that a pixel has 32 bits.
pub proof fn header_reads_back(pixels: Seq<u8>, width: u32, height: u32)
    requires
        bmp_size(width, height) <= u32::MAX,
    ensures
        crate::bytes::u32_at(bmp_of(pixels, width, height), 2) == bmp_size(width, height),
        crate::bytes::u32_at(bmp_of(pixels, width, height), 10) == bmp_header(width, height).len(),
        crate::bytes::u32_at(bmp_of(pixels, width, height), 18) == width,
        crate::bytes::u32_at(bmp_of(pixels, width, height), 22) == height,
        crate::bytes::u16_at(bmp_of(pixels, width, height), 26) == 1,
        crate::bytes::u16_at(bmp_of(pixels, width, height), 28) == 32,
        crate::bytes::u32_at(bmp_of(pixels, width, height), 14) == 40,
        bmp_of(pixels, width, height).take(2) == seq!['B' as u8, 'M' as u8],
{
    let image = bmp_of(pixels, width, height);
    le32_reads_back(bmp_size(width, height) as u32);
    le32_reads_back(54);
    le32_reads_back(width);
    le32_reads_back(height);
    assert(bmp_header(width, height).len() == 54);
    assert(image.subrange(2, 6) =~= le32(bmp_size(width, height) as u32));
    le32_reads_back(40);
    assert(image.subrange(10, 14) =~= le32(54));
    assert(image.subrange(14, 18) =~= le32(40));
    assert(image.take(2) =~= seq!['B' as u8, 'M' as u8]);
    assert(image[26] == 1 && image[27] == 0 && image[28] == 32 && image[29] == 0);
    assert(image.subrange(18, 22) =~= le32(width));
    assert(image.subrange(22, 26) =~= le32(height));
    assert forall|at: int| 0 <= at && at + 4 <= image.len() implies #[trigger] crate::bytes::u32_at(
        image,
        at,
    ) == crate::bytes::u32_at(image.subrange(at, at + 4), 0) by {}
}

/// An image of the pixels, with 32 bits to a pixel and the rows from the bottom up. Fails
/// where there are too few pixels.
pub fn encode_bmp(pixels: &Vec<u8>, width: u32, height: u32) -> (r: Result<Vec<u8>, String>)
    requires
        width * 32 + 31 <= u32::MAX,
        bmp_size(width, height) <= u32::MAX,
    ensures
        match r {
            Ok(data) => pixels@.len() >= 4 * width * height && data@ == bmp_of(
                pixels@,
                width,
                height,
            ),
            Err(e) => pixels@.len() < 4 * width * height && e@ == "Pixel data too short"@,
        },
{
    assert(0 <= width * height && (4 * width) * height == 4 * (width * height) && 4 * width
        * height == (4 * width) * height) by (nonlinear_arith);
    let row_size: u32 = (width * 32 + 31) / 32 * 4;
    assert(row_size == 4 * width);
    let pixel_data_size: u32 = row_size * height;
    let file_size: u32 = 54 + pixel_data_size;
    let mut data: Vec<u8> = Vec::new();
    data.push(0x42);
    data.push(0x4D);
    push_u32(&mut data, file_size);
    push_u32(&mut data, 0);
    push_u32(&mut data, 54);
    push_u32(&mut data, 40);
    push_u32(&mut data, width);
    push_u32(&mut data, height);
    data.push(1);
    data.push(0);
    data.push(32);
    data.push(0);
    push_u32(&mut data, 0);
    push_u32(&mut data, pixel_data_size);
    push_u32(&mut data, 0);
    push_u32(&mut data, 0);
    push_u32(&mut data, 0);
    push_u32(&mut data, 0);
    assert(data@ =~= bmp_header(width, height));
    let row_bytes: usize = row_size as usize;
    let mut y: u32 = height;
    assert(data@ + rows_upward(pixels@, width, height as nat) =~= bmp_of(pixels@, width, height));
    if height > 0 && pixels.len() < pixel_data_size as usize {
        return Err("Pixel data too short".to_string());
    }
    proof {
        if height == 0 {
            assert(4 * width * height == 0) by (nonlinear_arith)
                requires
                    height == 0,
            ;
        }
    }
    while y > 0
        invariant
            y <= height,
            row_bytes == 4 * width,
            4 * width * height <= pixels.len(),
            data@ + rows_upward(pixels@, width, y as nat) == bmp_of(pixels@, width, height),
        decreases y,
    {
        let ghost before = data@;
        proof {
            let (w, n, h) = (4 * width as int, y as int, height as int);
            assert(w * (n - 1) + w == w * n && 0 <= w * (n - 1) && w * n <= w * h)
                by (nonlinear_arith)
                requires
                    w >= 0,
                    1 <= n <= h,
            ;
        }
        y -= 1;
        let start: usize = row_bytes * (y as usize);
        let mut i: usize = 0;
        while i < row_bytes
            invariant
                i <= row_bytes,
                start + row_bytes <= pixels.len(),
                data@ == before + pixels@.subrange(start as int, start + i),
            decreases row_bytes - i,
        {
            data.push(pixels[start + i]);
            assert(data@ =~= before + pixels@.subrange(start as int, start + i + 1));
            i += 1;
        }
        assert(data@ + rows_upward(pixels@, width, y as nat) =~= before + rows_upward(
            pixels@,
            width,
            (y + 1) as nat,
        ));
    }
    assert(data@ + rows_upward(pixels@, width, 0) =~= data@);
    Ok(data)
}

/// The address under which a page can show the image of the pixels.
pub fn icon_url(pixels: &Vec<u8>, width: u32, height: u32) -> (r: Result<String, String>)
    requires
        width * 32 + 31 <= u32::MAX,
        bmp_size(width, height) <= u32::MAX,
        bmp_size(width, height) <= usize::MAX / 4,
    ensures
        match r {
            Ok(url) => pixels@.len() >= 4 * width * height && url@ == "data:image/bmp;base64,"@
                + outside::base64_text(bmp_of(pixels@, width, height)),
            Err(e) => pixels@.len() < 4 * width * height && e@ == "Pixel data too short"@,
        },
{
    match encode_bmp(pixels, width, height) {
        Ok(data) => {
            proof {
                upward_len(pixels@, width, height as nat);
            }
            let mut r = "data:image/bmp;base64,".to_string();
            r.append(base64_encode(&data).as_str());
            Ok(r)
        },
        Err(e) => Err(e),
    }
}

/// The name under which the icon of a file is kept: directories have one, files without
/// an extension have one, and others have one for each extension in lower case.
pub open spec fn icon_key_of(is_directory: bool, extension: Option<Seq<char>>) -> Seq<char> {
    if is_directory {
        "__directory__"@
    } else {
        match extension {
            Some(e) => seq!['.'] + outside::lowercased(e),
            None => "__noext__"@,
        }
    }
}

/// The name under which the icon of a file with the given extension is kept.
pub fn icon_key(is_directory: bool, extension: &Option<String>) -> (r: String)
    ensures
        r@ == icon_key_of(is_directory, crate::query::text_in(*extension)),
{
    if is_directory {
        return "__directory__".to_string();
    }
    match extension {
        Some(e) => icon_key_for(to_lowercase(e.as_str())),
        None => "__noext__".to_string(),
    }
}

/// The name under which the icon for an extension in lower case is kept.
pub fn icon_key_for(lowered: String) -> (r: String)
    ensures
        r@ == seq!['.'] + lowered@,
{
    let mut r = String::new();
    r.push('.');
    r.append(lowered.as_str());
    assert(r@ =~= seq!['.'] + lowered@);
    r
}

/// The name that the system is asked for the icon of; no such file has to exist.
pub fn icon_probe(key: &str, is_directory: bool) -> (r: String)
    ensures
        r@ == (if is_directory {
            "__folder__"@
        } else {
            "file"@ + key@
        }),
{
    if is_directory {
        "__folder__".to_string()
    } else {
        let mut r = "file".to_string();
        r.append(key);
        r
    }
}

/// Byte `k` of the rows, of which `n` are there, is that of the same column in the row as far from
/// the other end.
proof fn upward_row(pixels: Seq<u8>, width: u32, n: nat, y: int, k: int)
    requires
        0 <= y < n,
        0 <= k < 4 * width,
        4 * width * n <= pixels.len(),
    ensures
        0 <= 4 * width * (n - 1 - y) + k < rows_upward(pixels, width, n).len(),
        rows_upward(pixels, width, n)[4 * width * (n - 1 - y) + k] == pixels[4 * width * y + k],
    decreases n,
{
    let w = 4 * width as int;
    upward_len(pixels, width, n);
    assert(w * (n - 1) + w == w * n && 0 <= w * (n - 1)) by (nonlinear_arith)
        requires
            w >= 0,
            n >= 1,
    ;
    upward_len(pixels, width, (n - 1) as nat);
    if y == n - 1 {
        assert(w * (n - 1 - y) == 0) by (nonlinear_arith)
            requires
                y == n - 1,
        ;
    } else {
        assert(w * (n - 1 - y) == w + w * (n - 2 - y) && 0 <= w * (n - 2 - y)) by (nonlinear_arith)
            requires
                w >= 0,
                y <= n - 2,
        ;
        upward_row(pixels, width, (n - 1) as nat, y, k);
    }
}

/// The pixel in column `x` of row `y` stands in the image in the same column, in as many rows from
/// the bottom as it was from the top, behind the header of 54 bytes; its four bytes stay as they
/// are.
pub proof fn pixel_reads_back(pixels: Seq<u8>, width: u32, height: u32, x: int, y: int, byte: int)
    requires
        0 <= x < width,
        0 <= y < height,
        0 <= byte < 4,
        4 * width * height <= pixels.len(),
    ensures
        bmp_of(pixels, width, height)[54 + 4 * width * (height - 1 - y) + 4 * x + byte] == pixels[4
            * width * y + 4 * x + byte],
{
    upward_row(pixels, width, height as nat, y, 4 * x + byte);
    assert(bmp_header(width, height).len() == 54);
}

} // verus!
