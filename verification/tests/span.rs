use cynic_parser::Span;

fn assert_overlap(a: Span, b: Span) {
    let forward = a.overlaps(b);
    let back = b.overlaps(a);
    assert_eq!(forward, back);

    assert!(
        forward,
        "Expected {a:?} and {b:?} to overlap but they don't."
    );
}

fn assert_no_overlap(a: Span, b: Span) {
    let forward = a.overlaps(b);
    let back = b.overlaps(a);
    assert_eq!(forward, back);

    assert!(
        !forward,
        "Expected {a:?} and {b:?} not to overlap but they do."
    );
}

#[test]
fn empty_spans_never_overlap() {
    assert_no_overlap(Span { start: 0, end: 0 }, Span { start: 0, end: 0 });
    assert_no_overlap(Span { start: 0, end: 0 }, Span { start: 10, end: 10 });
    assert_no_overlap(Span { start: 100, end: 0 }, Span { start: 10, end: 10 });
}

#[test]
fn overlap_tests() {
    assert_overlap(Span { start: 0, end: 10 }, Span { start: 5, end: 15 });
    assert_overlap(Span { start: 5, end: 15 }, Span { start: 0, end: 10 });
    assert_overlap(Span { start: 0, end: 10 }, Span { start: 0, end: 10 });
    assert_overlap(Span { start: 0, end: 10 }, Span { start: 0, end: 5 });
    assert_overlap(Span { start: 0, end: 10 }, Span { start: 5, end: 10 });

    assert_no_overlap(Span { start: 10, end: 20 }, Span { start: 20, end: 30 });
    assert_no_overlap(Span { start: 10, end: 20 }, Span { start: 30, end: 40 });
}

#[test]
fn empty_span_inside_another_does_not_overlap() {
    assert_no_overlap(Span::new(5, 5), Span::new(0, 10));
}

#[test]
fn new_keeps_its_bounds() {
    let span = Span::new(3, 7);
    assert_eq!(span.start, 3);
    assert_eq!(span.end, 7);
}
