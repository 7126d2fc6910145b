use pixel_shift::partition::{partition, span_for, Span};

#[test]
fn an_even_division_gives_equal_spans() {
    assert_eq!(
        partition(12, 4),
        vec![
            Span { start: 0, end: 3 },
            Span { start: 3, end: 6 },
            Span { start: 6, end: 9 },
            Span { start: 9, end: 12 },
        ]
    );
}

#[test]
fn the_last_span_takes_the_remainder() {
    assert_eq!(
        partition(10, 3),
        vec![Span { start: 0, end: 3 }, Span { start: 3, end: 6 }, Span { start: 6, end: 10 }]
    );
    assert_eq!(
        partition(11, 4),
        vec![
            Span { start: 0, end: 2 },
            Span { start: 2, end: 4 },
            Span { start: 4, end: 6 },
            Span { start: 6, end: 11 },
        ]
    );
}

#[test]
fn one_worker_takes_the_whole_axis() {
    assert_eq!(partition(7, 1), vec![Span { start: 0, end: 7 }]);
    assert_eq!(partition(0, 1), vec![Span { start: 0, end: 0 }]);
}

#[test]
fn more_workers_than_lines_leave_all_but_the_last_idle() {
    assert_eq!(
        partition(2, 5),
        vec![
            Span { start: 0, end: 0 },
            Span { start: 0, end: 0 },
            Span { start: 0, end: 0 },
            Span { start: 0, end: 0 },
            Span { start: 0, end: 2 },
        ]
    );
}

#[test]
fn an_empty_axis_gives_empty_spans() {
    assert_eq!(partition(0, 3), vec![Span { start: 0, end: 0 }; 3]);
}

#[test]
fn span_for_agrees_with_partition() {
    for len in 0..30u32 {
        for workers in 1..12u32 {
            let spans = partition(len, workers);
            assert_eq!(spans.len(), workers as usize);
            for id in 0..workers {
                assert_eq!(span_for(len, workers, id), spans[id as usize]);
            }
        }
    }
}

#[test]
fn every_line_falls_to_exactly_one_worker() {
    for len in 0..40u32 {
        for workers in 1..50u32 {
            let spans = partition(len, workers);
            for line in 0..len {
                let owners =
                    spans.iter().filter(|span| span.start <= line && line < span.end).count();
                assert_eq!(owners, 1, "line {} of {} among {}", line, len, workers);
            }
        }
    }
}

#[test]
fn spans_lie_end_to_end() {
    for len in 0..40u32 {
        for workers in 1..50u32 {
            let spans = partition(len, workers);
            assert_eq!(spans[0].start, 0);
            assert_eq!(spans[spans.len() - 1].end, len);
            for i in 0..spans.len() {
                assert!(spans[i].start <= spans[i].end);
                if i + 1 < spans.len() {
                    assert_eq!(spans[i].end, spans[i + 1].start);
                }
            }
        }
    }
}

#[test]
fn the_largest_axis_is_divided_without_overflow() {
    let spans = partition(u32::MAX, 3);
    assert_eq!(
        spans,
        vec![
            Span { start: 0, end: 1431655765 },
            Span { start: 1431655765, end: 2863311530 },
            Span { start: 2863311530, end: u32::MAX },
        ]
    );
    assert_eq!(
        span_for(u32::MAX, u32::MAX, u32::MAX - 1),
        Span { start: u32::MAX - 1, end: u32::MAX }
    );
    assert_eq!(span_for(7, u32::MAX, 5), Span { start: 0, end: 0 });
    assert_eq!(span_for(7, u32::MAX, u32::MAX - 1), Span { start: 0, end: 7 });
}
