use ecow::EcoString;
use module_extra::{Comment, ModuleExtra, SrcSpan};

fn set_up_extra() -> ModuleExtra {
    let mut extra = ModuleExtra::new();
    extra.comments = vec![
        SrcSpan { start: 0, end: 10 },
        SrcSpan { start: 20, end: 30 },
        SrcSpan { start: 40, end: 50 },
        SrcSpan { start: 60, end: 70 },
        SrcSpan { start: 80, end: 90 },
        SrcSpan {
            start: 90,
            end: 100,
        },
    ];
    extra
}

#[test]
fn first_comment_between() {
    let extra = set_up_extra();
    assert!(matches!(
        extra.first_comment_between(15, 85),
        Some(SrcSpan { start: 20, end: 30 })
    ));
}

#[test]
fn first_comment_between_equal_to_range() {
    let extra = set_up_extra();
    assert!(matches!(
        extra.first_comment_between(40, 50),
        Some(SrcSpan { start: 40, end: 50 })
    ));
}

#[test]
fn first_comment_between_overlapping_start_of_range() {
    let extra = set_up_extra();
    assert!(matches!(
        extra.first_comment_between(45, 80),
        Some(SrcSpan { start: 40, end: 50 })
    ));
}

#[test]
fn first_comment_between_overlapping_end_of_range() {
    let extra = set_up_extra();
    assert!(matches!(
        extra.first_comment_between(35, 45),
        Some(SrcSpan { start: 40, end: 50 })
    ));
}

#[test]
fn first_comment_between_at_end_of_range() {
    let extra = set_up_extra();
    assert!(matches!(
        extra.first_comment_between(55, 60),
        Some(SrcSpan { start: 60, end: 70 })
    ));
}

#[test]
fn first_comment_between_past_all_comments() {
    let extra = set_up_extra();
    assert_eq!(extra.first_comment_between(200, 300), None);
    assert!(!extra.has_comment_between(200, 300));
}

#[test]
fn first_comment_between_in_gap() {
    let extra = set_up_extra();
    assert_eq!(extra.first_comment_between(11, 19), None);
    assert!(!extra.has_comment_between(11, 19));
}

#[test]
fn first_comment_between_whole_range() {
    let extra = set_up_extra();
    assert_eq!(
        extra.first_comment_between(0, 1000),
        Some(SrcSpan { start: 0, end: 10 })
    );
}

#[test]
fn first_comment_between_shared_boundary() {
    let extra = set_up_extra();
    assert_eq!(
        extra.first_comment_between(90, 90),
        Some(SrcSpan { start: 80, end: 90 })
    );
    assert_eq!(
        extra.first_comment_between(95, 95),
        Some(SrcSpan {
            start: 90,
            end: 100
        })
    );
}

#[test]
fn first_comment_between_many_candidates() {
    let mut extra = ModuleExtra::new();
    extra.comments = (0..100u32)
        .map(|i| SrcSpan {
            start: i * 10,
            end: i * 10 + 5,
        })
        .collect();
    assert_eq!(
        extra.first_comment_between(36, 990),
        Some(SrcSpan { start: 40, end: 45 })
    );
    assert_eq!(
        extra.first_comment_between(33, 990),
        Some(SrcSpan { start: 30, end: 35 })
    );
    assert_eq!(
        extra.first_comment_between(3, 990),
        Some(SrcSpan { start: 0, end: 5 })
    );
}

#[test]
fn first_comment_between_empty_index() {
    let extra = ModuleExtra::new();
    assert_eq!(extra.first_comment_between(0, 100), None);
    assert!(!extra.has_comment_between(0, 100));
}

#[test]
fn first_comment_between_point_range() {
    let extra = set_up_extra();
    assert_eq!(
        extra.first_comment_between(25, 25),
        Some(SrcSpan { start: 20, end: 30 })
    );
    assert_eq!(
        extra.first_comment_between(60, 60),
        Some(SrcSpan { start: 60, end: 70 })
    );
    assert_eq!(extra.first_comment_between(55, 55), None);
}

#[test]
fn has_comment_between_agrees_with_first() {
    let extra = set_up_extra();
    for start in 0..120u32 {
        for end in start..120u32 {
            assert_eq!(
                extra.has_comment_between(start, end),
                extra.first_comment_between(start, end).is_some()
            );
        }
    }
}

#[test]
fn first_comment_between_is_leftmost() {
    let extra = set_up_extra();
    for start in 0..120u32 {
        for end in start..120u32 {
            let expected = extra
                .comments
                .iter()
                .find(|c| c.end >= start && c.start <= end)
                .copied();
            assert_eq!(extra.first_comment_between(start, end), expected);
        }
    }
}

#[test]
fn repeated_queries_agree() {
    let extra = set_up_extra();
    let first = extra.first_comment_between(15, 85);
    let second = extra.first_comment_between(15, 85);
    assert_eq!(first, second);
    assert_eq!(extra.is_within_comment(25), extra.is_within_comment(25));
    assert_eq!(
        extra.has_comment_between(55, 60),
        extra.has_comment_between(55, 60)
    );
}

#[test]
fn is_within_comment_each_kind() {
    let mut extra = ModuleExtra::new();
    extra.comments = vec![SrcSpan { start: 10, end: 20 }];
    extra.doc_comments = vec![SrcSpan { start: 30, end: 40 }];
    extra.module_comments = vec![SrcSpan { start: 50, end: 60 }];
    assert!(extra.is_within_comment(10));
    assert!(extra.is_within_comment(15));
    assert!(extra.is_within_comment(20));
    assert!(extra.is_within_comment(35));
    assert!(extra.is_within_comment(60));
    assert!(!extra.is_within_comment(9));
    assert!(!extra.is_within_comment(21));
    assert!(!extra.is_within_comment(45));
    assert!(!extra.is_within_comment(61));
}

#[test]
fn is_within_comment_matches_scan() {
    let extra = set_up_extra();
    for offset in 0..120u32 {
        let expected = extra
            .comments
            .iter()
            .any(|c| c.start <= offset && offset <= c.end);
        assert_eq!(extra.is_within_comment(offset), expected);
    }
}

#[test]
fn is_within_comment_empty_index() {
    let extra = ModuleExtra::new();
    assert!(!extra.is_within_comment(0));
}

#[test]
fn new_and_default_are_empty() {
    let extra = ModuleExtra::new();
    assert!(extra.comments.is_empty());
    assert!(extra.doc_comments.is_empty());
    assert!(extra.module_comments.is_empty());
    assert!(extra.empty_lines.is_empty());
    assert!(extra.new_lines.is_empty());
    assert!(extra.trailing_commas.is_empty());
    assert_eq!(extra, ModuleExtra::default());
}

#[test]
fn comment_from_span_reads_text() {
    let src = "x // hello";
    let span = SrcSpan { start: 4, end: 10 };
    let comment = Comment::from_span(&span, src).unwrap();
    assert_eq!(comment.start, 4);
    assert_eq!(comment.content, " hello");
}

#[test]
fn comment_from_span_empty_range() {
    let comment = Comment::from_span(&SrcSpan { start: 3, end: 3 }, "abcdef").unwrap();
    assert_eq!(comment.start, 3);
    assert_eq!(comment.content, "");
}

#[test]
fn comment_from_span_rejects_bad_ranges() {
    let src = "// héllo";
    assert!(Comment::from_span(&SrcSpan { start: 2, end: 20 }, src).is_none());
    assert!(Comment::from_span(&SrcSpan { start: 5, end: 2 }, src).is_none());
    // The 'é' takes bytes 4 and 5.
    assert!(Comment::from_span(&SrcSpan { start: 5, end: 8 }, src).is_none());
    assert!(Comment::from_span(&SrcSpan { start: 2, end: 5 }, src).is_none());
    assert_eq!(
        Comment::from_span(&SrcSpan { start: 2, end: 6 }, src)
            .unwrap()
            .content,
        " hé"
    );
}

#[test]
fn comment_from_eco_span_reads_text() {
    let src = EcoString::from("let x = 1 // one");
    let comment = Comment::from_eco_span(&SrcSpan { start: 13, end: 16 }, &src).unwrap();
    assert_eq!(
        comment,
        Comment {
            start: 13,
            content: "one"
        }
    );
    assert!(Comment::from_eco_span(&SrcSpan { start: 13, end: 17 }, &src).is_none());
}
