use vstd::prelude::*;
use crate::text::{chunk_text, chunks_of, views};

verus! {

/// Why a document gave no text.
#[derive(PartialEq, Eq, Structural, Clone, Copy, Debug)]
pub enum DocumentError {
    /// The PDF could not be read.
    ExtractionFailed,
}

/// The chunks of a PDF document, given the text its extraction found, or
/// `None` where extraction failed.
pub fn pdf_chunks(extracted: Option<String>) -> (r: Result<Vec<String>, DocumentError>)
    ensures
        match extracted {
            Some(t) => r matches Ok(cs) && views(cs@) == chunks_of(t@),
            None => r == Err::<Vec<String>, DocumentError>(DocumentError::ExtractionFailed),
        },
{
    match extracted {
        Some(text) => Ok(chunk_text(text.as_str())),
        None => Err(DocumentError::ExtractionFailed),
    }
}

/// The chunk at `local` among the chunks of `text`, or `None` past the
/// last.
pub fn chunk_at(text: &str, local: usize) -> (r: Option<String>)
    ensures
        r is Some <==> local < chunks_of(text@).len(),
        r matches Some(c) ==> c@ == chunks_of(text@)[local as int],
{
    let mut chunks = chunk_text(text);
    if local < chunks.len() {
        let c = chunks.swap_remove(local);
        Some(c)
    } else {
        None
    }
}

/// `.pdf`, the extension that routes a file through PDF extraction.
pub open spec fn pdf_ext() -> Seq<char> {
    seq!['.', 'p', 'd', 'f']
}

/// Whether the file name that ends `path` has the extension `pdf`: it ends
/// with `.pdf` and holds more than that.
pub open spec fn names_pdf(path: Seq<char>) -> bool {
    let n = path.len();
    &&& n > 4
    &&& path.subrange(n - 4, n as int) == pdf_ext()
    &&& path[n - 5] != '/'
}

/// Whether `path` names a PDF file by its extension.
pub fn is_pdf_path(path: &str) -> (r: bool)
    ensures
        r == names_pdf(path@),
{
    let n = path.unicode_len();
    if n <= 4 {
        return false;
    }
    let tail = path.substring_char(n - 4, n);
    let a = tail.get_char(0);
    let b = tail.get_char(1);
    let c = tail.get_char(2);
    let d = tail.get_char(3);
    let before = path.get_char(n - 5);
    let r = a == '.' && b == 'p' && c == 'd' && d == 'f' && before != '/';
    assert(r == names_pdf(path@)) by {
        if a == '.' && b == 'p' && c == 'd' && d == 'f' {
            assert(tail@ =~= pdf_ext());
        }
    }
    r
}

} // verus!
