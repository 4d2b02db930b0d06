use semfs::query::extract_date_filter;
use semfs::query::extract_extension_filter;
use semfs::query::parse_query;
use semfs::query::recent_filter;
use semfs::query::month_filter;
use semfs::query::year_filter;
use semfs::query::Clock;
use semfs::query::QueryFilter;
use semfs::query::SortOrder;

#[test]
fn test_year_filter() {
    let (filter, remaining) = extract_date_filter("2024년에 작성한 React 프로젝트").unwrap();
    match filter {
        QueryFilter::DateRange { start, end } => {
            assert!(start > 0);
            assert!(end > start);
        }
        _ => panic!("Expected DateRange"),
    }
    assert!(remaining.contains("React"));
    assert!(!remaining.contains("2024"));
}

#[test]
fn test_extension_filter() {
    let (filter, remaining) = extract_extension_filter("TypeScript 파일 중 API 관련").unwrap();
    match filter {
        QueryFilter::Extension(exts) => {
            assert!(exts.contains(&"ts".to_string()));
            assert!(exts.contains(&"tsx".to_string()));
        }
        _ => panic!("Expected Extension"),
    }
    assert!(remaining.contains("API"));
}

#[test]
fn test_recent_days_filter() {
    let (filter, _) = extract_date_filter("최근 7일 동안 수정한 파일").unwrap();
    match filter {
        QueryFilter::DateRange { start, end } => {
            let now = chrono::Utc::now().timestamp();
            assert!(end - start <= 7 * 86400 + 1);
            assert!((end - now).abs() < 2);
        }
        _ => panic!("Expected DateRange"),
    }
}

#[test]
fn test_parse_simple_query() {
    let q = parse_query("React 프로젝트");
    assert!(q.semantic_query.contains("React"));
    assert!(q.semantic_query.contains("프로젝트"));
    assert!(q.filters.is_empty());
}

#[test]
fn test_parse_with_year() {
    let q = parse_query("2024년에 작성한 React 프로젝트");
    assert!(q.semantic_query.contains("React"));
    assert_eq!(q.filters.len(), 1);
    assert!(matches!(&q.filters[0], QueryFilter::DateRange { .. }));
}

#[test]
fn test_parse_with_extension() {
    let q = parse_query("2024년에 작성한 React 프로젝트 중 TypeScript 파일");
    assert_eq!(q.filters.len(), 2);
}

#[test]
fn test_parse_quoted() {
    let q = parse_query("\"에러 로그가 포함된 파일\"");
    assert!(q.semantic_query.contains("에러"));
    assert!(q.semantic_query.contains("로그가"));
}

#[test]
fn test_parse_sort_order() {
    let q = parse_query("최신 업데이트된 파일");
    assert!(matches!(q.sort, SortOrder::DateDesc));
}

#[test]
fn test_parse_korean_english_mixed_query() {
    let q = parse_query("2024년에 작성한 React 프로젝트 중 TypeScript 파일");
    assert!(!q.filters.is_empty(), "Should have filters");
    assert!(
        q.semantic_query.contains("React") || q.semantic_query.contains("프로젝트"),
        "Semantic query should contain key terms: got '{}'",
        q.semantic_query
    );
}

#[test]
fn test_parse_simple_english_query() {
    let q = parse_query("API router files");
    assert!(q.semantic_query.contains("API"));
    assert!(q.filters.is_empty());
}

#[test]
fn test_parse_date_filter_variations() {
    let q1 = parse_query("2024년 프로젝트");
    assert!(!q1.filters.is_empty());
    let q2 = parse_query("최근 7일 수정한 파일");
    assert!(!q2.filters.is_empty());
    let q3 = parse_query("지난달 작업한 코드");
    assert!(!q3.filters.is_empty());
}

#[test]
fn test_parse_extension_filter_korean() {
    let q = parse_query("Python 코드");
    let has_ext_filter = q.filters.iter().any(|f| {
        matches!(f, QueryFilter::Extension(exts) if exts.contains(&"py".to_string()))
    });
    assert!(has_ext_filter, "Should detect Python extension filter");
}

#[test]
fn query_parser_preserves_raw_input_examples() {
    for input in ["abc 가나다", "React 프로젝트 2024", "  spaced  ", "x"] {
        let q = parse_query(input);
        assert_eq!(q.raw_input, input);
    }
}

#[test]
fn year_filter_covers_the_calendar_year_in_utc() {
    let (filter, rest) = extract_date_filter("2024년 보고서").unwrap();
    match filter {
        QueryFilter::DateRange { start, end } => {
            assert_eq!(start, 1704067200);
            assert_eq!(end, 1735689599);
        }
        _ => panic!("Expected DateRange"),
    }
    assert_eq!(rest, "보고서");
}

#[test]
fn recent_weeks_and_months_scale_days() {
    let (filter, rest) = extract_date_filter("지난 2주 로그").unwrap();
    match filter {
        QueryFilter::DateRange { start, end } => assert_eq!(end - start, 14 * 86400),
        _ => panic!("Expected DateRange"),
    }
    assert_eq!(rest, "로그");
    let (filter, _) = extract_date_filter("최근 3개월").unwrap();
    match filter {
        QueryFilter::DateRange { start, end } => assert_eq!(end - start, 90 * 86400),
        _ => panic!("Expected DateRange"),
    }
}

#[test]
fn month_filter_spans_one_month() {
    let (filter, rest) = extract_date_filter("이번달 회의록").unwrap();
    match filter {
        QueryFilter::DateRange { start, end } => {
            assert!(end > start);
            let days = (end + 1 - start) / 86400;
            assert!((28..=31).contains(&days));
        }
        _ => panic!("Expected DateRange"),
    }
    assert_eq!(rest, "회의록");
}

#[test]
fn no_date_in_plain_text() {
    assert!(extract_date_filter("README 파일").is_none());
}

#[test]
fn extension_filter_cleans_filler_words() {
    let (filter, rest) = extract_extension_filter("Rust 코드 예제").unwrap();
    match filter {
        QueryFilter::Extension(exts) => assert_eq!(exts, vec!["rs".to_string()]),
        _ => panic!("Expected Extension"),
    }
    assert_eq!(rest, "예제");
    assert!(extract_extension_filter("회의록 정리").is_none());
}

#[test]
fn extension_filter_takes_the_first_kind_in_order() {
    let (filter, _) = extract_extension_filter("JavaScript and TypeScript").unwrap();
    match filter {
        QueryFilter::Extension(exts) => assert_eq!(exts, vec!["ts".to_string(), "tsx".to_string()]),
        _ => panic!("Expected Extension"),
    }
}

#[test]
fn stop_words_are_dropped_and_words_joined() {
    let q = parse_query("  에러   관련  로그   파일 ");
    assert_eq!(q.semantic_query, "에러 로그");
    assert!(matches!(q.sort, SortOrder::Relevance));
}

#[test]
fn sort_keywords() {
    assert!(matches!(parse_query("오래된 문서").sort, SortOrder::DateAsc));
    assert!(matches!(parse_query("이름순 목록").sort, SortOrder::NameAsc));
}

#[test]
fn single_quotes_are_removed_too() {
    let q = parse_query("'설계 문서'");
    assert_eq!(q.semantic_query, "설계 문서");
}

#[test]
fn a_lone_quote_is_kept_as_text() {
    let q = parse_query("\"");
    assert_eq!(q.semantic_query, "\"");
    assert_eq!(q.raw_input, "\"");
    let q = parse_query(" ' ");
    assert_eq!(q.semantic_query, "'");
    let q = parse_query("\"\"");
    assert_eq!(q.semantic_query, "");
    let q = parse_query("React");
    assert_eq!(q.semantic_query, "React");
}

#[test]
fn digits_that_do_not_parse_give_no_date_filter() {
    // The patterns take any Unicode decimal digit; only ASCII digits parse.
    let q = parse_query("최근 \u{663}일");
    assert!(q.filters.is_empty());
    assert_eq!(q.semantic_query, "최근 \u{663}일");
    let q = parse_query("\u{662}\u{660}\u{662}\u{664}년 보고서");
    assert!(q.filters.is_empty());
    let q = parse_query("최근 10일");
    assert_eq!(q.filters.len(), 1);
    // Four digits or more are read as a year first.
    let q = parse_query("최근 99999999999999999999일");
    assert_eq!(q.filters.len(), 1);
}

#[test]
fn a_recent_span_too_long_gives_no_date_filter() {
    // Captures of the recent pattern in "최근 <count>일": the whole match,
    // the word, the count and the unit, as character ranges.
    let clock = Some(Clock { utc_now: 1_700_000_000, local_year: 2023, local_month: 11 });
    let g = vec![Some((0, 19)), Some((0, 2)), Some((3, 18)), Some((18, 19))];
    // The largest span whose seconds fit in an i64 is read; one day more is not.
    let (f, rest) = recent_filter("최근 106751991167300일", &g, &clock).unwrap();
    match f {
        QueryFilter::DateRange { start, end } => {
            assert_eq!(end, 1_700_000_000);
            assert_eq!(start, 1_700_000_000 - 106751991167300 * 86400);
        }
        _ => panic!("Expected DateRange"),
    }
    assert_eq!(rest, "");
    assert!(recent_filter("최근 106751991167301일", &g, &clock).is_none());
    // Without a clock reading there is no recent span.
    assert!(recent_filter("최근 106751991167300일", &g, &None).is_none());
}

#[test]
fn month_and_year_filters_from_captures() {
    let clock = Some(Clock { utc_now: 1_700_000_000, local_year: 2024, local_month: 1 });
    // "지난달 회의" : the whole match and the word are the first three characters.
    let g = vec![Some((0, 3)), Some((0, 3))];
    let (f, rest) = month_filter("지난달 회의", &g, &clock).unwrap();
    match f {
        QueryFilter::DateRange { start, end } => {
            assert_eq!(start, 1_701_388_800); // 2023-12-01T00:00:00Z
            assert_eq!(end, 1_704_067_199); // 2023-12-31T23:59:59Z
        }
        _ => panic!("Expected DateRange"),
    }
    assert_eq!(rest, "회의");
    assert!(month_filter("지난달 회의", &g, &None).is_none());
    // "2024년 보고서": the match is "2024년 " and the year "2024".
    let g = vec![Some((0, 6)), Some((0, 4)), None];
    let (f, rest) = year_filter("2024년 보고서", &g).unwrap();
    match f {
        QueryFilter::DateRange { start, end } => {
            assert_eq!(start, 1_704_067_200);
            assert_eq!(end, 1_735_689_599);
        }
        _ => panic!("Expected DateRange"),
    }
    assert_eq!(rest, "보고서");
}

#[test]
fn metadata_filter_keeps_values() {
    let f = QueryFilter::DateRange { start: 5, end: 9 };
    match f.to_metadata_filter() {
        semfs::types::MetadataFilter::DateRange { start, end } => {
            assert_eq!((start, end), (5, 9));
        }
        _ => panic!("wrong variant"),
    }
    let f = QueryFilter::Extension(vec!["md".to_string()]);
    match f.to_metadata_filter() {
        semfs::types::MetadataFilter::Extension(e) => assert_eq!(e, vec!["md".to_string()]),
        _ => panic!("wrong variant"),
    }
}
