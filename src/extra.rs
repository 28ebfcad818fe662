use vstd::prelude::*;

use crate::span::{
    any_overlapping, contains_offset, find_overlapping, first_overlapping,
    lemma_first_overlapping_at, lemma_first_overlapping_least_index, overlaps, spans_ordered,
    SrcSpan,
};

verus! {

/// The trivia of one module: comment spans of three kinds and the offsets of
/// blank lines, line breaks and trailing commas, each filled in scan order.
#[derive(Debug, PartialEq, Eq)]
pub struct ModuleExtra {
    pub module_comments: Vec<SrcSpan>,
    pub doc_comments: Vec<SrcSpan>,
    pub comments: Vec<SrcSpan>,
    pub empty_lines: Vec<u32>,
    pub new_lines: Vec<u32>,
    pub trailing_commas: Vec<u32>,
}

impl ModuleExtra {
    /// The three comment sequences are each sorted and free of overlap, as
    /// a scan from left to right fills them.
    pub open spec fn comments_ordered(&self) -> bool {
        &&& spans_ordered(self.module_comments@)
        &&& spans_ordered(self.doc_comments@)
        &&& spans_ordered(self.comments@)
    }

    /// All six sequences are empty.
    pub open spec fn is_empty(&self) -> bool {
        &&& self.module_comments@.len() == 0
        &&& self.doc_comments@.len() == 0
        &&& self.comments@.len() == 0
        &&& self.empty_lines@.len() == 0
        &&& self.new_lines@.len() == 0
        &&& self.trailing_commas@.len() == 0
    }

    pub fn new() -> (r: Self)
        ensures
            r.is_empty(),
            r.comments_ordered(),
    {
        ModuleExtra {
            module_comments: Vec::new(),
            doc_comments: Vec::new(),
            comments: Vec::new(),
            empty_lines: Vec::new(),
            new_lines: Vec::new(),
            trailing_commas: Vec::new(),
        }
    }

    /// Detects if a byte index is in a comment context
    pub fn is_within_comment(&self, byte_index: u32) -> (r: bool)
        requires
            self.comments_ordered(),
        ensures
            r == (contains_offset(self.comments@, byte_index) || contains_offset(
                self.doc_comments@,
                byte_index,
            ) || contains_offset(self.module_comments@, byte_index)),
    {
        find_offset(self.comments.as_slice(), byte_index) || find_offset(
            self.doc_comments.as_slice(),
            byte_index,
        ) || find_offset(self.module_comments.as_slice(), byte_index)
    }

    pub fn has_comment_between(&self, start: u32, end: u32) -> (r: bool)
        requires
            spans_ordered(self.comments@),
        ensures
            r == any_overlapping(self.comments@, start, end),
    {
        proof {
            lemma_first_overlapping_least_index(self.comments@, start, end);
        }
        self.first_comment_between(start, end).is_some()
    }

    /// Returns the first comment overlapping the given source locations (inclusive)
    /// Note that the returned span covers the text of the comment, not the `//`
    pub fn first_comment_between(&self, start: u32, end: u32) -> (r: Option<SrcSpan>)
        requires
            spans_ordered(self.comments@),
        ensures
            r == first_overlapping(self.comments@, start, end),
    {
        // A bisection finds some overlapping comment, not necessarily the
        // first. Each time one is found, search again among the comments
        // before it, until no earlier one overlaps.
        let spans = self.comments.as_slice();
        let mut first_index_so_far: Option<usize> = None;
        let mut limit: usize = spans.len();
        loop
            invariant_except_break
                spans@ == self.comments@,
                spans_ordered(spans@),
                limit <= spans@.len(),
                match first_index_so_far {
                    None => limit == spans@.len(),
                    Some(i) => i == limit && i < spans@.len() && overlaps(
                        spans@[i as int],
                        start,
                        end,
                    ),
                },
            ensures
                spans@ == self.comments@,
                limit <= spans@.len(),
                match first_index_so_far {
                    None => limit == spans@.len(),
                    Some(i) => i == limit && i < spans@.len() && overlaps(
                        spans@[i as int],
                        start,
                        end,
                    ),
                },
                forall|j: int| 0 <= j < limit ==> !overlaps(#[trigger] spans@[j], start, end),
            decreases limit,
        {
            match find_overlapping(spans, limit, start, end) {
                Some(index) => {
                    first_index_so_far = Some(index);
                    limit = index;
                },
                None => break,
            }
        }
        match first_index_so_far {
            Some(index) => {
                proof {
                    lemma_first_overlapping_at(spans@, start, end, index as int);
                }
                Some(spans[index])
            },
            None => {
                proof {
                    lemma_first_overlapping_least_index(spans@, start, end);
                }
                None
            },
        }
    }
}

/// Queries read nothing but the comments: asked again of an index whose
/// comments are unchanged, each query gives the same answer.
pub proof fn lemma_queries_repeat(a: &ModuleExtra, b: &ModuleExtra, start: u32, end: u32, offset: u32)
    requires
        a.comments@ == b.comments@,
        a.doc_comments@ == b.doc_comments@,
        a.module_comments@ == b.module_comments@,
    ensures
        first_overlapping(a.comments@, start, end) == first_overlapping(b.comments@, start, end),
        any_overlapping(a.comments@, start, end) == any_overlapping(b.comments@, start, end),
        contains_offset(a.comments@, offset) == contains_offset(b.comments@, offset),
        contains_offset(a.doc_comments@, offset) == contains_offset(b.doc_comments@, offset),
        contains_offset(a.module_comments@, offset) == contains_offset(
            b.module_comments@,
            offset,
        ),
{
}

impl Default for ModuleExtra {
    fn default() -> (r: Self)
        ensures
            r.is_empty(),
    {
        Self::new()
    }
}

/// Whether some span of the ordered `spans` holds `offset`.
fn find_offset(spans: &[SrcSpan], offset: u32) -> (r: bool)
    requires
        spans_ordered(spans@),
    ensures
        r == contains_offset(spans@, offset),
{
    let found = find_overlapping(spans, spans.len(), offset, offset);
    proof {
        if found is Some {
            let i = found->Some_0 as int;
            assert(spans@[i].start <= offset && offset <= spans@[i].end);
        } else if contains_offset(spans@, offset) {
            let i = choose|i: int|
                0 <= i < spans@.len() && spans@[i].start <= offset && offset <= #[trigger] spans@[i].end;
            assert(overlaps(spans@[i], offset, offset));
        }
    }
    found.is_some()
}

} // verus!
