//! MIME inference from a file name's extension.

use vstd::prelude::*;
use vstd::slice::slice_to_vec;
use crate::bytes::{bytes_eq, crlf_free, split, split_spec};

verus! {

/// The extension of a file name: what stands after the last `.`, or the
/// whole name when it has no `.`.
pub open spec fn ext_of(file: Seq<u8>) -> Seq<u8> {
    split_spec(file, seq![46u8]).last()
}

/// The bytes of `text/plain`, the default MIME type.
pub open spec fn mime_plain() -> Seq<u8> {
    seq![116u8, 101u8, 120u8, 116u8, 47u8, 112u8, 108u8, 97u8, 105u8, 110u8]
}

/// The bytes of `text/html`.
pub open spec fn mime_html() -> Seq<u8> {
    seq![116u8, 101u8, 120u8, 116u8, 47u8, 104u8, 116u8, 109u8, 108u8]
}

/// The bytes of `text/plain`.
pub fn mime_plain_bytes() -> (r: Vec<u8>)
    ensures
        r@ == mime_plain(),
{
    let a: [u8; 10] = [116, 101, 120, 116, 47, 112, 108, 97, 105, 110];
    let v = slice_to_vec(a.as_slice());
    proof {
        assert(v@ =~= mime_plain());
    }
    v
}

/// The bytes of `text/html`.
pub fn mime_html_bytes() -> (r: Vec<u8>)
    ensures
        r@ == mime_html(),
{
    let a: [u8; 9] = [116, 101, 120, 116, 47, 104, 116, 109, 108];
    let v = slice_to_vec(a.as_slice());
    proof {
        assert(v@ =~= mime_html());
    }
    v
}

/// The MIME type for an extension, from the fixed table; anything
/// unknown is `text/plain`.
pub open spec fn mime_of_ext(ext: Seq<u8>) -> Seq<u8> {
    if ext == seq![104u8, 116u8, 109u8, 108u8] {  // html
        mime_html()
    } else if ext == seq![99u8, 115u8, 115u8] {  // css
        seq![116u8, 101u8, 120u8, 116u8, 47u8, 99u8, 115u8, 115u8]
    } else if ext == seq![106u8, 115u8] {  // js
        seq![116u8, 101u8, 120u8, 116u8, 47u8, 106u8, 97u8, 118u8, 97u8, 115u8, 99u8, 114u8,
            105u8, 112u8, 116u8]
    } else if ext == seq![109u8, 97u8, 112u8] {  // map
        seq![97u8, 112u8, 112u8, 108u8, 105u8, 99u8, 97u8, 116u8, 105u8, 111u8, 110u8, 47u8,
            106u8, 115u8, 111u8, 110u8]
    } else if ext == seq![106u8, 112u8, 103u8] || ext == seq![106u8, 112u8, 101u8, 103u8] {  // jpg, jpeg
        seq![105u8, 109u8, 97u8, 103u8, 101u8, 47u8, 106u8, 112u8, 101u8, 103u8]
    } else if ext == seq![112u8, 110u8, 103u8] {  // png
        seq![105u8, 109u8, 97u8, 103u8, 101u8, 47u8, 112u8, 110u8, 103u8]
    } else if ext == seq![105u8, 99u8, 111u8] {  // ico
        seq![105u8, 109u8, 97u8, 103u8, 101u8, 47u8, 120u8, 45u8, 105u8, 99u8, 111u8, 110u8]
    } else if ext == seq![115u8, 118u8, 103u8] {  // svg
        seq![105u8, 109u8, 97u8, 103u8, 101u8, 47u8, 115u8, 118u8, 103u8, 43u8, 120u8, 109u8,
            108u8]
    } else {
        mime_plain()
    }
}

/// The MIME type inferred from a file name.
pub open spec fn mime_of_path(file: Seq<u8>) -> Seq<u8> {
    mime_of_ext(ext_of(file))
}

/// Every MIME type of the table is free of CR and LF, so it is safe in
/// a header line.
pub proof fn lemma_mime_crlf_free(file: Seq<u8>)
    ensures
        crlf_free(mime_of_path(file)),
{
}

/// Infer a file's MIME type from its extension.
pub fn parse_file_mime_type(file: &[u8]) -> (r: Vec<u8>)
    ensures
        r@ == mime_of_path(file@),
{
    let dot: [u8; 1] = [46];
    proof {
        assert(dot@ =~= seq![46u8]);
    }
    let parts = split(file, dot.as_slice());
    let last = parts.len() - 1;
    proof {
        assert(parts.deep_view()[last as int] =~= parts@[last as int]@);
        assert(parts.deep_view().last() == parts.deep_view()[last as int]);
    }
    let ext: &[u8] = parts[last].as_slice();
    let e_html: [u8; 4] = [104, 116, 109, 108];
    let e_css: [u8; 3] = [99, 115, 115];
    let e_js: [u8; 2] = [106, 115];
    let e_map: [u8; 3] = [109, 97, 112];
    let e_jpg: [u8; 3] = [106, 112, 103];
    let e_jpeg: [u8; 4] = [106, 112, 101, 103];
    let e_png: [u8; 3] = [112, 110, 103];
    let e_ico: [u8; 3] = [105, 99, 111];
    let e_svg: [u8; 3] = [115, 118, 103];
    proof {
        assert(e_html@ =~= seq![104u8, 116u8, 109u8, 108u8]);
        assert(e_css@ =~= seq![99u8, 115u8, 115u8]);
        assert(e_js@ =~= seq![106u8, 115u8]);
        assert(e_map@ =~= seq![109u8, 97u8, 112u8]);
        assert(e_jpg@ =~= seq![106u8, 112u8, 103u8]);
        assert(e_jpeg@ =~= seq![106u8, 112u8, 101u8, 103u8]);
        assert(e_png@ =~= seq![112u8, 110u8, 103u8]);
        assert(e_ico@ =~= seq![105u8, 99u8, 111u8]);
        assert(e_svg@ =~= seq![115u8, 118u8, 103u8]);
    }
    let r: Vec<u8> = if bytes_eq(ext, e_html.as_slice()) {
        let a: [u8; 9] = [116, 101, 120, 116, 47, 104, 116, 109, 108];
        slice_to_vec(a.as_slice())
    } else if bytes_eq(ext, e_css.as_slice()) {
        let a: [u8; 8] = [116, 101, 120, 116, 47, 99, 115, 115];
        slice_to_vec(a.as_slice())
    } else if bytes_eq(ext, e_js.as_slice()) {
        let a: [u8; 15] = [116, 101, 120, 116, 47, 106, 97, 118, 97, 115, 99, 114, 105, 112, 116];
        slice_to_vec(a.as_slice())
    } else if bytes_eq(ext, e_map.as_slice()) {
        let a: [u8; 16] = [97, 112, 112, 108, 105, 99, 97, 116, 105, 111, 110, 47, 106, 115, 111,
            110];
        slice_to_vec(a.as_slice())
    } else if bytes_eq(ext, e_jpg.as_slice()) || bytes_eq(ext, e_jpeg.as_slice()) {
        let a: [u8; 10] = [105, 109, 97, 103, 101, 47, 106, 112, 101, 103];
        slice_to_vec(a.as_slice())
    } else if bytes_eq(ext, e_png.as_slice()) {
        let a: [u8; 9] = [105, 109, 97, 103, 101, 47, 112, 110, 103];
        slice_to_vec(a.as_slice())
    } else if bytes_eq(ext, e_ico.as_slice()) {
        let a: [u8; 12] = [105, 109, 97, 103, 101, 47, 120, 45, 105, 99, 111, 110];
        slice_to_vec(a.as_slice())
    } else if bytes_eq(ext, e_svg.as_slice()) {
        let a: [u8; 13] = [105, 109, 97, 103, 101, 47, 115, 118, 103, 43, 120, 109, 108];
        slice_to_vec(a.as_slice())
    } else {
        let a: [u8; 10] = [116, 101, 120, 116, 47, 112, 108, 97, 105, 110];
        slice_to_vec(a.as_slice())
    };
    proof {
        assert(r@ =~= mime_of_path(file@));
    }
    r
}

} // verus!
