use vstd::prelude::*;
use vstd::string::StringSliceAdditionalSpecFns;
use vstd::utf8::{
    encode_utf8, is_char_boundary, is_char_boundary_iff_not_is_continuation_byte,
    is_char_boundary_start_end_of_seq,
};

use crate::span::SrcSpan;

verus! {

broadcast use vstd::utf8::encode_utf8_valid_utf8;

/// The text of one comment, borrowed from the module's source.
#[derive(Debug, PartialEq, Eq)]
pub struct Comment<'a> {
    pub start: u32,
    pub content: &'a str,
}

/// `bytes[start..end]` (end excluded) is a piece of the text that splits no
/// character.
pub open spec fn is_text_slice(bytes: Seq<u8>, start: int, end: int) -> bool {
    &&& start <= end <= bytes.len()
    &&& is_char_boundary(bytes, start)
    &&& is_char_boundary(bytes, end)
}

/// What `Comment::from_span` gives for `span` over text encoded as `bytes`.
pub open spec fn comment_matches(r: Option<Comment>, span: SrcSpan, bytes: Seq<u8>) -> bool {
    &&& (r is Some <==> is_text_slice(bytes, span.start as int, span.end as int))
    &&& (r matches Some(c) ==> c.start == span.start && c.content.spec_bytes() == bytes.subrange(
        span.start as int,
        span.end as int,
    ))
}

/// The characters that an `EcoString` holds.
pub uninterp spec fn eco_text(s: ecow::EcoString) -> Seq<char>;

#[verifier::external_type_specification]
#[verifier::external_body]
pub struct ExEcoString(ecow::EcoString);

/// Relies on ecow's `EcoString::as_str`: it borrows the string's contents.
pub assume_specification[ ecow::EcoString::as_str ](s: &ecow::EcoString) -> (r: &str)
    ensures
        r@ == eco_text(*s),
;

impl<'a> Comment<'a> {
    /// The comment whose text `span` covers in `src`, read as the byte range
    /// `src[span.start..span.end]` with the end excluded; `None` where that
    /// range leaves the text, runs backwards or splits a character.
    pub fn from_span(span: &SrcSpan, src: &'a str) -> (r: Option<Comment<'a>>)
        ensures
            comment_matches(r, *span, src.spec_bytes()),
    {
        let start = span.start as usize;
        let end = span.end as usize;
        if start <= end && end <= src.as_bytes().len() && src.is_char_boundary(start) && src.is_char_boundary(
            end,
        ) {
            let (head, _) = src.split_at(end);
            proof {
                let bytes = src.spec_bytes();
                let head_bytes = head.spec_bytes();
                if start == end {
                    is_char_boundary_start_end_of_seq(head_bytes);
                } else {
                    assert(head_bytes[start as int] == bytes[start as int]);
                    is_char_boundary_iff_not_is_continuation_byte(bytes, start as int);
                    is_char_boundary_iff_not_is_continuation_byte(head_bytes, start as int);
                }
            }
            let (_, content) = head.split_at(start);
            proof {
                assert(content.spec_bytes() =~= src.spec_bytes().subrange(start as int, end as int));
            }
            Some(Comment { start: span.start, content })
        } else {
            None
        }
    }

    /// `Comment::from_span` over the contents of an `EcoString`.
    pub fn from_eco_span(span: &SrcSpan, src: &'a ecow::EcoString) -> (r: Option<Comment<'a>>)
        ensures
            comment_matches(r, *span, encode_utf8(eco_text(*src))),
    {
        Comment::from_span(span, src.as_str())
    }
}

} // verus!
