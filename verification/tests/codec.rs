use arxiv_bot::content::{ensure_nonempty, list_text, Content};
use arxiv_bot::errors::Error;
use arxiv_bot::index::{parse, Index};
use arxiv_bot::pin::{parse_pin_url, Pin};
use arxiv_bot::scraper::Scraper;
use arxiv_bot::subject::Subject;
use arxiv_bot::times::parse_batch_timestamp;

#[test]
fn modern_parse_and_format_round_trip() {
    let ix = parse("2301.00001").unwrap();
    match &ix {
        Index::New { year, month, idx } => {
            assert_eq!(*year, 2023);
            assert_eq!(*month, 1);
            assert_eq!(*idx, 1);
        }
        _ => panic!("expected a modern identifier"),
    }
    assert_eq!(ix.format(), "2301.00001");
}

#[test]
fn modern_four_digit_tail_padded_to_five() {
    let ix = parse("0704.0001").unwrap();
    match &ix {
        Index::New { year, month, idx } => {
            assert_eq!(*year, 2007);
            assert_eq!(*month, 4);
            assert_eq!(*idx, 1);
        }
        _ => panic!("expected a modern identifier"),
    }
    assert_eq!(ix.format(), "0704.00001");
}

#[test]
fn modern_century_wrap() {
    let ix = parse("9912.12345").unwrap();
    match &ix {
        Index::New { year, .. } => assert_eq!(*year, 1999),
        _ => panic!("expected a modern identifier"),
    }
}

#[test]
fn legacy_parse_keeps_subject_and_three_digit_width() {
    let ix = parse("math.CT/0701001").unwrap();
    match &ix {
        Index::Old { year, month, idx, sub } => {
            assert_eq!(*year, 2007);
            assert_eq!(*month, 1);
            assert_eq!(*idx, 1);
            assert_eq!(*sub, Subject::math_CT);
        }
        _ => panic!("expected a legacy identifier"),
    }
    assert_eq!(ix.format(), "0701001");
}

#[test]
fn legacy_unknown_archive_is_kept_as_raw_subject() {
    let ix = parse("hep-th/9901012").unwrap();
    match &ix {
        Index::Old { year, month, idx, sub } => {
            assert_eq!(*year, 1999);
            assert_eq!(*month, 1);
            assert_eq!(*idx, 12);
            assert_eq!(*sub, Subject::Others("hep-th".to_string()));
        }
        _ => panic!("expected a legacy identifier"),
    }
}

#[test]
fn invalid_identifiers_are_rejected() {
    assert_eq!(parse("abc123").unwrap_err(), Error::InvalidIdentifier);
    assert_eq!(parse("12345").unwrap_err(), Error::InvalidIdentifier);
    assert_eq!(parse("").unwrap_err(), Error::InvalidIdentifier);
    // a matching shape with no calendar month is invalid too
    assert_eq!(parse("2313.00001").unwrap_err(), Error::InvalidIdentifier);
    assert_eq!(parse("math.CT/0713001").unwrap_err(), Error::InvalidIdentifier);
    // two dots in the subject prefix
    assert_eq!(parse("a.b.c/0701001").unwrap_err(), Error::InvalidIdentifier);
}

#[test]
fn detail_urls() {
    let modern = parse("2301.00001").unwrap();
    assert_eq!(modern.to_detail_url(), "https://arxiv.org/abs/2301.00001");
    let legacy = parse("math.CT/0701001").unwrap();
    assert_eq!(legacy.to_detail_url(), "https://arxiv.org/abs/math.CT/0701001");
}

#[test]
fn known_subject_round_trip() {
    let known = [
        Subject::math_CT,
        Subject::math_HO,
        Subject::math_LO,
        Subject::cs_LO,
        Subject::cs_PL,
    ];
    for v in known {
        let code = v.as_str().to_string();
        assert_eq!(Subject::from_string(&code), v);
        let display = v.as_display().to_string();
        assert_eq!(Subject::from_string(&display), v);
    }
}

#[test]
fn subject_codes_and_displays() {
    assert_eq!(Subject::cs_PL.as_str(), "cs.PL");
    assert_eq!(Subject::cs_PL.as_display(), "Programming Languages (cs.PL)");
    let other = Subject::from_string("Quantum Physics (quant-ph)");
    assert_eq!(other, Subject::Others("Quantum Physics (quant-ph)".to_string()));
    assert_eq!(other.as_str(), "quant-ph");
    assert_eq!(other.as_display(), "Quantum Physics (quant-ph)");
}

#[test]
fn strip_takes_parenthesized_segment() {
    assert_eq!(Subject::strip("Category Theory (math.CT)"), "math.CT");
    assert_eq!(Subject::strip("(abc)"), "abc");
}

#[test]
fn batch_timestamps_parse_in_both_forms() {
    assert_eq!(
        parse_batch_timestamp("Wed, 18 Feb 2015 23:16:09 GMT"),
        Some(1424301369)
    );
    assert_eq!(parse_batch_timestamp("2023-01-02T00:00:00Z"), Some(1672617600));
    assert_eq!(parse_batch_timestamp("not a date"), None);
}

#[test]
fn pin_urls() {
    assert_eq!(
        parse_pin_url("https://www.zhihu.com/pin/123456789").unwrap().id,
        "123456789"
    );
    assert_eq!(parse_pin_url("zhihu.com/pin/42/").unwrap().id, "42");
    assert_eq!(
        parse_pin_url("https://www.zhihu.com/pin/").unwrap_err(),
        Error::InvalidIdentifier
    );
    assert_eq!(
        parse_pin_url("https://example.com/pin/1").unwrap_err(),
        Error::InvalidIdentifier
    );
}

#[test]
fn default_pin_is_the_placeholder() {
    let p = Pin::default();
    assert_eq!(p.id, "0");
}

#[test]
fn content_lists() {
    let block = Content::text("hello");
    match &block {
        Content::Text(t) => assert_eq!(t, "hello"),
        _ => panic!("expected a text block"),
    }
    let mut list: Vec<Content> = Vec::new();
    list_text(&mut list, "first");
    assert_eq!(list.len(), 1);
    let padded = ensure_nonempty(Vec::new());
    assert_eq!(padded.len(), 1);
    match &padded[0] {
        Content::Text(t) => assert_eq!(t, ""),
        _ => panic!("expected a text block"),
    }
    let kept = ensure_nonempty(list);
    assert_eq!(kept.len(), 1);
}

#[test]
fn scraper_plans_subjects_in_order() {
    let sc = Scraper {
        source: None,
        subject: vec!["cs.PL".to_string(), "quant-ph".to_string()],
    };
    let plan = sc.plan_subjects().unwrap();
    assert_eq!(plan.len(), 2);
    assert_eq!(plan[0], Subject::cs_PL);
    assert_eq!(plan[1], Subject::Others("quant-ph".to_string()));

    let rss = Scraper { source: Some("rss".to_string()), subject: vec![] };
    assert!(rss.plan_subjects().is_some());

    let bad = Scraper { source: Some("web".to_string()), subject: vec![] };
    assert!(bad.plan_subjects().is_none());
}

#[test]
fn subject_list_splits_on_fixed_delimiter() {
    let subs = arxiv_bot::metadata::parse_subject_list(
        "Logic (math.LO); Category Theory (math.CT); Quantum Physics (quant-ph)",
    );
    assert_eq!(subs.len(), 3);
    assert_eq!(subs[0], Subject::math_LO);
    assert_eq!(subs[1], Subject::math_CT);
    assert_eq!(subs[2], Subject::Others("Quantum Physics (quant-ph)".to_string()));
}

#[test]
fn largest_sequence_numbers_round_trip() {
    let ix = parse("9912.99999").unwrap();
    assert_eq!(ix.format(), "9912.99999");
    let old = parse("math.CT/9912999").unwrap();
    assert_eq!(old.format(), "9912999");
}
