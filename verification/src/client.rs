//! What a client of the store sends: the body of a file upload.
use vstd::prelude::*;
use vstd::string::*;
use crate::storage::needle::push_bytes;

verus! {

/// The body of a `multipart/form-data` upload of one file: the part for form field
/// `file`, with the file's name and content type, between the boundary lines.
pub open spec fn file_multipart(boundary: &str, filename: &str, content_type: &str, content: Seq<u8>) -> Seq<u8> {
    "--".spec_bytes() + boundary.spec_bytes() + "\r\n".spec_bytes()
        + "Content-Disposition: form-data; name=\"file\"; filename=\"".spec_bytes() + filename.spec_bytes()
        + "\"\r\n".spec_bytes() + "Content-Type: ".spec_bytes() + content_type.spec_bytes()
        + "\r\n\r\n".spec_bytes() + content + "\r\n".spec_bytes() + "--".spec_bytes()
        + boundary.spec_bytes() + "--".spec_bytes() + "\r\n".spec_bytes()
}

/// Appends the bytes of `s` to `w`.
fn push_text(w: &mut Vec<u8>, s: &str)
    ensures
        final(w)@ == old(w)@ + s.spec_bytes(),
{
    push_bytes(w, s.as_bytes());
}

/// The body of a `multipart/form-data` upload of the file `filename`, of type
/// `content_type` and holding `content`, with the boundary `boundary`.
pub fn make_file_multipart(boundary: &str, filename: &str, content_type: &str, content: &[u8]) -> (r: Vec<u8>)
    ensures
        r@ == file_multipart(boundary, filename, content_type, content@),
{
    let mut data: Vec<u8> = Vec::new();
    push_text(&mut data, "--");
    push_text(&mut data, boundary);
    push_text(&mut data, "\r\n");
    push_text(&mut data, "Content-Disposition: form-data; name=\"file\"; filename=\"");
    push_text(&mut data, filename);
    push_text(&mut data, "\"\r\n");
    push_text(&mut data, "Content-Type: ");
    push_text(&mut data, content_type);
    push_text(&mut data, "\r\n\r\n");
    push_bytes(&mut data, content);
    push_text(&mut data, "\r\n");
    push_text(&mut data, "--");
    push_text(&mut data, boundary);
    push_text(&mut data, "--");
    push_text(&mut data, "\r\n");
    data
}

} // verus!
