//! The file mutator's decision: whether a header already leads a file's
//! content, and what the new content is when it does not. Reading and
//! writing the file itself is the caller's job; the decision and the new
//! content are computed here, so a write is all-or-nothing by construction.

use vstd::prelude::*;
use crate::text::match_at;

verus! {

/// Whether the header already stands at the top of the file: the content
/// is the header exactly, or starts with the header followed by a newline,
/// i.e. the file's leading lines equal the header's lines.
pub open spec fn header_present(content: Seq<u8>, header: Seq<u8>) -> bool {
    &&& content.len() >= header.len()
    &&& content.take(header.len() as int) == header
    &&& (content.len() == header.len() || content[header.len() as int] == 10u8)
}

/// What applying a header to a file's content decided.
pub enum ApplyOutcome {
    /// The header was absent; the full new content to write is carried.
    Added { new_content: Vec<u8> },
    /// An equal header already leads the file; nothing is to be written.
    AlreadyPresent,
}

/// Decides whether `header` has to be inserted into `content`. When the
/// header is absent, the new content is the header lines, a newline, and
/// the original content unchanged; when it is present, nothing changes.
pub fn apply_header(content: &Vec<u8>, header: &Vec<u8>) -> (r: ApplyOutcome)
    ensures
        match r {
            ApplyOutcome::AlreadyPresent => header_present(content@, header@),
            ApplyOutcome::Added { new_content } => !header_present(content@, header@)
                && new_content@ == header@ + seq![10u8] + content@,
        },
{
    let present = if header.len() <= content.len() && match_at(content, 0, header) {
        assert(content@.take(header@.len() as int) =~= content@.subrange(0, header@.len() as int));
        header.len() == content.len() || content[header.len()] == 10
    } else {
        proof {
            if content@.len() >= header@.len() {
                assert(content@.take(header@.len() as int) =~= content@.subrange(
                    0,
                    header@.len() as int,
                ));
            }
        }
        false
    };
    if present {
        ApplyOutcome::AlreadyPresent
    } else {
        let mut new_content = crate::text::bytes_copy(header);
        new_content.push(10);
        crate::text::append_bytes(&mut new_content, content);
        assert(new_content@ =~= header@ + seq![10u8] + content@);
        ApplyOutcome::Added { new_content }
    }
}

/// Idempotence: content that was just given the header passes the presence
/// check, so applying the same header a second time returns
/// `AlreadyPresent` and leaves the file as the first run left it.
pub proof fn lemma_apply_idempotent(content: Seq<u8>, header: Seq<u8>)
    ensures
        header_present(header + seq![10u8] + content, header),
{
    let grown = header + seq![10u8] + content;
    assert(grown.take(header.len() as int) =~= header);
    assert(grown[header.len() as int] == 10u8);
}

} // verus!
