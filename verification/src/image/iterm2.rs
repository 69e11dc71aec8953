//! iTerm2 inline images: OSC 1337 `File=<params>:<base64 data>`.

use vstd::prelude::*;
use vstd::utf8::encode_utf8;
use crate::image::{base64_decoded, b64_decode};
use crate::text::{
    chars_of, copy_range, trim_chars, string_from_chars, trim, find_from, find_char, split_on, split_fields,
    texts_view, chars_eq,
};

verus! {

#[verifier::external_type_specification]
#[verifier::external_body]
pub struct ExImageError(image::ImageError);

/// What `image::load_from_memory` followed by `to_rgba8` makes of `data`:
/// the width, height and RGBA bytes (row by row, four bytes a pixel) of
/// the image, or `None` where the decoder rejects the bytes (format
/// guessed from the bytes, default limits).
pub uninterp spec fn rgba_image(data: Seq<u8>) -> Option<(u32, u32, Seq<u8>)>;

/// `image::load_from_memory` and `DynamicImage::to_rgba8`: the RGBA
/// buffer's width, height and bytes, or the decoder's error. Both depend
/// on the bytes alone (the name `rgba_image`).
#[verifier::external_body]
fn load_rgba(data: &[u8]) -> (r: Result<(u32, u32, Vec<u8>), image::ImageError>)
    ensures
        match r {
            Ok((w, h, v)) => rgba_image(data@) == Some((w, h, v@)),
            Err(_) => rgba_image(data@) is None,
        },
{
    match image::load_from_memory(data) {
        Ok(img) => {
            let rgba = img.to_rgba8();
            Ok((rgba.width(), rgba.height(), rgba.into_raw()))
        },
        Err(e) => Err(e),
    }
}

pub open spec fn file_prefix() -> Seq<char> {
    seq!['F', 'i', 'l', 'e', '=']
}

pub open spec fn inline_key() -> Seq<char> {
    seq!['i', 'n', 'l', 'i', 'n', 'e']
}

/// Whether the parameters ask for inline display: the last `inline=`
/// parameter decides, and only the value `1` says yes.
pub open spec fn inline_of(params: Seq<Seq<char>>) -> bool
    decreases params.len(),
{
    if params.len() == 0 {
        false
    } else {
        let p = params.last();
        let e = find_from(p, '=', 0);
        if e < p.len() && p.take(e) == inline_key() {
            p.skip(e + 1) == seq!['1']
        } else {
            inline_of(params.drop_last())
        }
    }
}

/// The base64 image data of a payload (the trimmed part after the first
/// `:`, as bytes) when the parameters before it start with `File=` and
/// ask for inline display; `None` otherwise.
pub open spec fn image_data(p: Seq<char>) -> Option<Seq<u8>> {
    let c = find_from(p, ':', 0);
    if c >= p.len() {
        None
    } else {
        let params = p.take(c);
        if params.len() < 5 || params.take(5) != file_prefix() {
            None
        } else if !inline_of(split_on(params.skip(5), ';')) {
            None
        } else {
            Some(encode_utf8(trim(p.skip(c + 1))))
        }
    }
}

fn inline_param(fields: &Vec<Vec<char>>) -> (b: bool)
    ensures
        b == inline_of(texts_view(fields@)),
{
    let ghost fv = texts_view(fields@);
    let key: [char; 6] = ['i', 'n', 'l', 'i', 'n', 'e'];
    assert(key@ =~= inline_key());
    let mut inline = false;
    let mut i: usize = 0;
    assert(fv.take(0) =~= Seq::<Seq<char>>::empty());
    while i < fields.len()
        invariant
            i <= fields@.len(),
            fv == texts_view(fields@),
            key@ == inline_key(),
            inline == inline_of(fv.take(i as int)),
        decreases fields@.len() - i,
    {
        let f = &fields[i];
        let e = find_char(f.as_slice(), '=');
        assert(fv.take(i + 1).drop_last() =~= fv.take(i as int));
        assert(fv.take(i + 1).last() == f@);
        if e < f.len() {
            let k = copy_range(f.as_slice(), 0, e);
            assert(k@ =~= f@.take(e as int));
            if chars_eq(k.as_slice(), &key) {
                let v = copy_range(f.as_slice(), e + 1, f.len());
                assert(v@ =~= f@.skip(e + 1));
                inline = v.len() == 1 && v[0] == '1';
                assert(inline == (v@ == seq!['1'])) by {
                    if v@.len() == 1 && v@[0] == '1' {
                        assert(v@ =~= seq!['1']);
                    }
                }
            }
        }
        i = i + 1;
    }
    assert(fv.take(fv.len() as int) =~= fv);
    inline
}

/// The image file an iTerm2 inline image payload (`File=<params>:<base64>`)
/// carries: `None` when the payload has no `:`, does not start with
/// `File=`, is not marked `inline=1`, or its data is not base64.
pub fn inline_image_bytes(payload: &str) -> (r: Option<Vec<u8>>)
    ensures
        match image_data(payload@) {
            None => r is None,
            Some(b64) => match base64_decoded(b64) {
                None => r is None,
                Some(bytes) => r matches Some(v) && v@ == bytes,
            },
        },
{
    let p = chars_of(payload);
    let c = find_char(p.as_slice(), ':');
    if c >= p.len() {
        return None;
    }
    let params = copy_range(p.as_slice(), 0, c);
    assert(params@ =~= p@.take(c as int));
    if params.len() < 5 || !(params[0] == 'F' && params[1] == 'i' && params[2] == 'l' && params[3] == 'e'
        && params[4] == '=') {
        proof {
            if params@.len() >= 5 && params@.take(5) == file_prefix() {
                assert(params@.take(5)[0] == 'F' && params@.take(5)[4] == '=');
                assert(params@.take(5)[1] == 'i' && params@.take(5)[2] == 'l' && params@.take(5)[3] == 'e');
            }
        }
        return None;
    }
    assert(params@.take(5) =~= file_prefix());
    let rest = copy_range(params.as_slice(), 5, params.len());
    assert(rest@ =~= params@.skip(5));
    let fields = split_fields(rest.as_slice(), ';');
    if !inline_param(&fields) {
        return None;
    }
    let data = copy_range(p.as_slice(), c + 1, p.len());
    assert(data@ =~= p@.skip(c + 1));
    let t = trim_chars(data.as_slice());
    let s = string_from_chars(t.as_slice());
    let bytes = s.as_str().as_bytes();
    match b64_decode(bytes) {
        Err(_) => None,
        Ok(raw) => Some(raw),
    }
}

/// Decodes an iTerm2 inline image payload into width, height and RGBA
/// bytes: `None` where `inline_image_bytes` finds no image file or the
/// image decoder rejects that file.
pub fn decode(payload: &str) -> (r: Option<(u32, u32, Vec<u8>)>)
    ensures
        match image_data(payload@) {
            None => r is None,
            Some(b64) => match base64_decoded(b64) {
                None => r is None,
                Some(bytes) => match r {
                    Some((w, h, v)) => rgba_image(bytes) == Some((w, h, v@)),
                    None => rgba_image(bytes) is None,
                },
            },
        },
{
    match inline_image_bytes(payload) {
        None => None,
        Some(raw) => match load_rgba(raw.as_slice()) {
            Err(_) => None,
            Ok(img) => Some(img),
        },
    }
}

} // verus!
