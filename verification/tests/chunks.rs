use ferrules::range::{
    chunk_docs_range, doc_length, parse_number, parse_page_range, PageRangeError,
};

#[test]
fn test_chunk_docs_range_with_more_pages_than_workers() {
    let n_pages = 10;
    let n_workers = 3;
    let result = chunk_docs_range(n_pages, n_workers, None);

    assert_eq!(result.len(), 3); // Should split into 3 chunks
    assert_eq!(result[0], 0..3);
    assert_eq!(result[1], 3..6);
    assert_eq!(result[2], 6..10);
}

#[test]
fn test_chunk_docs_range_with_fewer_pages_than_workers() {
    let n_pages = 3;
    let n_workers = 5;
    let result = chunk_docs_range(n_pages, n_workers, None);

    assert_eq!(result.len(), 1); // Should return single range
    assert_eq!(result[0], 0..3);
}

#[test]
fn test_chunk_docs_range_with_custom_range() {
    let n_pages = 10;
    let n_workers = 2;
    let page_range = Some(2..8); // Pages 2 to 7
    let result = chunk_docs_range(n_pages, n_workers, page_range);

    assert_eq!(result.len(), 2);
    assert_eq!(result[0], 2..5);
    assert_eq!(result[1], 5..8);
}

#[test]
fn test_chunk_docs_range_with_single_page() {
    let n_pages = 1;
    let n_workers = 1;
    let result = chunk_docs_range(n_pages, n_workers, None);

    assert_eq!(result.len(), 1);
    assert_eq!(result[0], 0..1);
}

#[test]
fn test_chunk_docs_range_with_zero_pages() {
    let n_pages = 0;
    let n_workers = 1;
    let result = chunk_docs_range(n_pages, n_workers, None);

    assert_eq!(result.len(), 1);
    assert_eq!(result[0], 0..0);
}

#[test]
fn test_chunk_docs_range_with_equal_pages_and_workers() {
    let n_pages = 4;
    let n_workers = 4;
    let result = chunk_docs_range(n_pages, n_workers, None);

    assert_eq!(result.len(), 1);
    assert_eq!(result[0], 0..4);
}

#[test]
fn chunks_follow_one_another_and_cover_the_range() {
    let result = chunk_docs_range(100, 7, Some(10..53));
    assert_eq!(result.len(), 7);
    assert_eq!(result[0].start, 10);
    assert_eq!(result[6].end, 53);
    for i in 1..result.len() {
        assert_eq!(result[i - 1].end, result[i].start);
        assert!(result[i].start < result[i].end);
    }
    let pages: Vec<usize> = result.iter().flat_map(|r| r.clone()).collect();
    assert_eq!(pages, (10..53).collect::<Vec<_>>());
    assert_eq!(
        result,
        vec![10..16, 16..22, 22..28, 28..34, 34..40, 40..46, 46..53]
    );
}

#[test]
fn a_range_of_no_more_pages_than_workers_is_its_own_chunk() {
    assert_eq!(chunk_docs_range(10, 20, Some(2..5)), vec![2..5]);
    assert_eq!(chunk_docs_range(10, 3, Some(2..5)), vec![2..5]);
    assert_eq!(chunk_docs_range(10, 2, Some(2..5)), vec![2..3, 3..5]);
}

#[test]
fn a_range_without_pages_is_its_own_chunk() {
    assert_eq!(chunk_docs_range(6, 0, Some(5..2)), vec![5..2]);
    assert_eq!(chunk_docs_range(6, 4, Some(3..3)), vec![3..3]);
    assert_eq!(chunk_docs_range(0, 0, None), vec![0..0]);
}

#[test]
fn parse_page_range_reads_a_range() {
    assert_eq!(parse_page_range("3-7"), Ok(2..7));
    assert_eq!(parse_page_range(" 3 - 7 "), Ok(2..7));
    assert_eq!(parse_page_range("1-1"), Ok(0..1));
    assert_eq!(parse_page_range("+2-+4"), Ok(1..4));
}

#[test]
fn parse_page_range_reads_a_single_page() {
    assert_eq!(parse_page_range("5"), Ok(4..5));
    assert_eq!(parse_page_range("\t12\n"), Ok(11..12));
    assert_eq!(parse_page_range("007"), Ok(6..7));
}

#[test]
fn parse_page_range_refuses_what_is_no_range() {
    assert_eq!(parse_page_range("0"), Err(PageRangeError::ZeroPage));
    assert_eq!(parse_page_range("0-3"), Err(PageRangeError::InvalidRange));
    assert_eq!(parse_page_range("7-3"), Err(PageRangeError::InvalidRange));
    assert_eq!(parse_page_range(""), Err(PageRangeError::EmptyNumber));
    assert_eq!(parse_page_range("-"), Err(PageRangeError::EmptyNumber));
    assert_eq!(parse_page_range("3-"), Err(PageRangeError::EmptyNumber));
    assert_eq!(parse_page_range("a"), Err(PageRangeError::InvalidDigit));
    assert_eq!(parse_page_range("1-2-3"), Err(PageRangeError::InvalidDigit));
    assert_eq!(parse_page_range("+"), Err(PageRangeError::InvalidDigit));
    assert_eq!(parse_page_range("1 2"), Err(PageRangeError::InvalidDigit));
    assert_eq!(
        parse_page_range("99999999999999999999999999"),
        Err(PageRangeError::NumberTooLarge)
    );
    assert_eq!(
        parse_page_range("99999999999999999999999999x"),
        Err(PageRangeError::NumberTooLarge)
    );
}

#[test]
fn parse_number_agrees_with_the_standard_library() {
    let samples = [
        "0", "1", "42", "+42", "-42", "", "+", " 1", "1 ", "18446744073709551615",
        "18446744073709551616", "000000000000000000000000001", "12a", "٣", "1_000",
    ];
    for s in samples {
        let expected = s.parse::<usize>().ok();
        assert_eq!(parse_number(s).ok(), expected, "for {:?}", s);
    }
}

#[test]
fn page_range_errors_say_what_the_standard_library_says() {
    assert_eq!(
        PageRangeError::EmptyNumber.message(),
        "".parse::<usize>().unwrap_err().to_string()
    );
    assert_eq!(
        PageRangeError::InvalidDigit.message(),
        "x".parse::<usize>().unwrap_err().to_string()
    );
    assert_eq!(
        PageRangeError::NumberTooLarge.message(),
        "99999999999999999999999999".parse::<usize>().unwrap_err().to_string()
    );
    assert_eq!(
        PageRangeError::InvalidRange.message(),
        "Invalid page range: start must be > 0 and end must be >= start"
    );
    assert_eq!(PageRangeError::ZeroPage.message(), "Page number must be greater than 0");
    assert_eq!(
        PageRangeError::EndExceedsLength { end: 12, length: 10 }.message(),
        "Page range end (12) exceeds document length (10)"
    );
}

#[test]
fn doc_length_counts_the_pages_to_parse() {
    assert_eq!(doc_length(10, None), Ok(10));
    assert_eq!(doc_length(10, Some(2..7)), Ok(5));
    assert_eq!(doc_length(10, Some(0..10)), Ok(10));
    assert_eq!(doc_length(10, Some(7..2)), Ok(0));
    assert_eq!(
        doc_length(10, Some(2..11)),
        Err(PageRangeError::EndExceedsLength { end: 11, length: 10 })
    );
}
