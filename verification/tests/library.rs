use lindy_videos::config::Config;
use lindy_videos::encrypt::{decrypt, Encrypted};
use lindy_videos::error::Error;
use lindy_videos::library::{
    check_video, convert_video, create_file_access, create_file_access_with_nonce, create_library,
    extract_date, find_thumbnail, parse_date, rank_of, sorted_tags, Date, Library,
    LibraryRestriction, Thumbnail, VideoAccess,
};
use lindy_videos::restrictions::{RestrictionRule, Restrictions};
use lindy_videos::tags_file::{TagsFile, TagsVideo};

fn strings(items: &[&str]) -> Vec<String> {
    items.iter().map(|t| t.to_string()).collect()
}

fn video(name: &str, tags: &[&str]) -> TagsVideo {
    TagsVideo {
        name: name.to_string(),
        tags: strings(tags),
    }
}

fn rule(name: &str, with: &[&str], without: &[&str], password: &str) -> RestrictionRule {
    RestrictionRule {
        name: name.to_string(),
        with_tags: strings(with),
        without_tags: strings(without),
        password: password.to_string(),
    }
}

fn config() -> Config {
    Config {
        file_access_iterations: 10,
        file_access_salt: "salt".to_string(),
        thumbnail_height: 100,
        thumbnail_hex_chars_prefix: 8,
    }
}

fn thumbnails(names: &[&str]) -> Vec<Thumbnail> {
    names
        .iter()
        .map(|n| Thumbnail {
            video: n.to_string(),
            thumbnail: format!("{}.webp", n),
        })
        .collect()
}

fn date(year: u16, month: u8, day: u8) -> Option<Date> {
    Some(Date { year, month, day })
}

fn public_names(library: &Library) -> Vec<String> {
    library
        .videos
        .iter()
        .map(|v| match &v.access {
            VideoAccess::Public { canonical_name } => canonical_name.clone(),
            VideoAccess::Restricted { .. } => "<restricted>".to_string(),
        })
        .collect()
}

fn open(token: &LibraryRestriction, password: &str) -> Result<String, Error> {
    decrypt(
        password,
        "salt",
        10,
        &Encrypted {
            iv: token.iv.clone(),
            ciphertext: token.ciphertext.clone(),
        },
    )
}

#[test]
fn parse_date_examples() {
    assert_eq!(parse_date("2023-02-05"), date(2023, 2, 5));
    assert_eq!(parse_date("0000-00-00"), date(0, 0, 0));
    assert_eq!(parse_date("9999-99-99"), date(9999, 99, 99));
    assert_eq!(parse_date("2023-13-40"), date(2023, 13, 40));
}

#[test]
fn parse_date_rejects_other_shapes() {
    for tag in [
        "",
        "2023-2-05",
        "2023-02-5",
        "23-02-05",
        "2023/02/05",
        "2023-02-05 ",
        " 2023-02-05",
        "2023-02-05\n",
        "x2023-02-05",
        "2023-02-0x",
        "20230205",
        "2023-02-055",
        "２０２３-02-05",
        "٢٠٢٣-٠٢-٠٥",
        "2023-02-０5",
        "social",
    ] {
        assert_eq!(parse_date(tag), None, "{:?}", tag);
    }
}

#[test]
fn first_syntactic_date_wins_even_if_the_calendar_lacks_it() {
    let tags = strings(&["social", "2023-13-40", "2023-02-05"]);
    assert_eq!(extract_date(&tags), date(2023, 13, 40));
}

#[test]
fn extract_date_skips_tags_that_are_no_dates() {
    assert_eq!(
        extract_date(&strings(&["social", "2023-1-1", "١٩٩٩-٠١-٠١", "1999-12-31", "2000-01-01"])),
        date(1999, 12, 31)
    );
    assert_eq!(extract_date(&strings(&["social", "class"])), None);
    assert_eq!(extract_date(&strings(&[])), None);
}

#[test]
fn later_dates_rank_first_and_no_date_last() {
    let ranks = [
        rank_of(date(2024, 3, 1)),
        rank_of(date(2024, 2, 29)),
        rank_of(date(2023, 12, 31)),
        rank_of(date(0, 0, 0)),
        rank_of(None),
    ];
    for pair in ranks.windows(2) {
        assert!(pair[0] < pair[1]);
    }
    assert_eq!(rank_of(date(65535, 255, 255)), 0);
    assert_eq!(rank_of(date(0, 0, 0)), 0xFFFF_FFFF);
    assert_eq!(rank_of(None), 0x1_0000_0000);
    assert_eq!(rank_of(date(2024, 3, 1)), 0xFFFF_FFFF - ((2024 * 256 + 3) * 256 + 1));
}

#[test]
fn date_order_is_year_month_day() {
    let a = Date { year: 2024, month: 3, day: 1 };
    let b = Date { year: 2023, month: 12, day: 31 };
    assert!(b < a);
    assert_eq!(a, Date { year: 2024, month: 3, day: 1 });
}

#[test]
fn sorted_tags_are_in_code_point_order() {
    assert_eq!(
        sorted_tags(&strings(&["social", "2024-01-01", "Class", "class", "é", "a", "a"])),
        strings(&["2024-01-01", "Class", "a", "a", "class", "social", "é"])
    );
    assert_eq!(sorted_tags(&strings(&[])), strings(&[]));
}

#[test]
fn find_thumbnail_takes_the_first_entry() {
    let mut list = thumbnails(&["a", "b"]);
    list.push(Thumbnail {
        video: "a".to_string(),
        thumbnail: "other".to_string(),
    });
    assert_eq!(find_thumbnail(&list, &"a".to_string()).unwrap(), "a.webp");
    assert_eq!(find_thumbnail(&list, &"b".to_string()).unwrap(), "b.webp");
    assert!(find_thumbnail(&list, &"c".to_string()).is_none());
}

#[test]
fn file_access_decrypts_to_the_name() {
    let r = rule("family", &["private"], &[], "secret");
    let token = create_file_access(&config(), "abc.mp4", &r).unwrap();
    assert_eq!(token.rule, "family");
    assert_eq!(open(&token, "secret").unwrap(), "abc.mp4");
    assert_eq!(open(&token, "other").unwrap_err(), Error::AuthenticationFailure);
}

#[test]
fn file_access_with_nonce_is_exact() {
    let r = rule("family", &["private"], &[], "secret");
    let nonce = [3u8; 12];
    let token = create_file_access_with_nonce(&config(), "abc.mp4", &r, &nonce).unwrap();
    let expected =
        lindy_videos::encrypt::encrypt_with_nonce("secret", "salt", 10, &nonce, "abc.mp4").unwrap();
    assert_eq!(token.rule, "family");
    assert_eq!(token.iv, "030303030303030303030303");
    assert_eq!(token.iv, expected.iv);
    assert_eq!(token.ciphertext, expected.ciphertext);
}

#[test]
fn video_without_matching_rule_is_public() {
    let rules = Restrictions {
        rules: vec![rule("family", &["private"], &[], "secret")],
    };
    let v = video("abc.mp4", &["social", "2024-01-01"]);
    let converted = convert_video(&config(), &rules, &v, &thumbnails(&["abc.mp4"])).unwrap();
    assert_eq!(converted.date, date(2024, 1, 1));
    assert_eq!(converted.tags, strings(&["2024-01-01", "social"]));
    assert_eq!(converted.thumbnail, "abc.mp4.webp");
    match converted.access {
        VideoAccess::Public { canonical_name } => assert_eq!(canonical_name, "abc.mp4"),
        VideoAccess::Restricted { .. } => panic!("no rule matches"),
    }
}

#[test]
fn video_with_matching_rules_has_one_token_per_rule_in_order() {
    let rules = Restrictions {
        rules: vec![
            rule("family", &["private"], &[], "secret"),
            rule("never", &["nothing"], &[], "x"),
            rule("friends", &[], &["public"], "other"),
        ],
    };
    let v = video("abc.mp4", &["private"]);
    let converted = convert_video(&config(), &rules, &v, &thumbnails(&["abc.mp4"])).unwrap();
    match converted.access {
        VideoAccess::Public { .. } => panic!("two rules match"),
        VideoAccess::Restricted { accesses } => {
            assert_eq!(accesses.len(), 2);
            assert_eq!(accesses[0].rule, "family");
            assert_eq!(accesses[1].rule, "friends");
            assert_eq!(open(&accesses[0], "secret").unwrap(), "abc.mp4");
            assert_eq!(open(&accesses[1], "other").unwrap(), "abc.mp4");
            assert_eq!(
                open(&accesses[1], "secret").unwrap_err(),
                Error::AuthenticationFailure
            );
            assert_ne!(accesses[0].iv, accesses[1].iv);
        }
    }
}

#[test]
fn missing_thumbnail_is_an_error() {
    let rules = Restrictions::default();
    let v = video("abc.mp4", &[]);
    assert_eq!(
        convert_video(&config(), &rules, &v, &thumbnails(&["other.mp4"])).unwrap_err(),
        Error::MissingThumbnail
    );
    assert_eq!(
        check_video(&rules, &v, &thumbnails(&["other.mp4"])),
        Some(Error::MissingThumbnail)
    );
    assert_eq!(check_video(&rules, &v, &thumbnails(&["abc.mp4"])), None);
}

#[test]
fn library_is_sorted_by_date_descending_with_no_date_last() {
    let ledger = TagsFile {
        videos: vec![
            video("c.mp4", &["x"]),
            video("b.mp4", &["2023-12-31"]),
            video("a.mp4", &["2024-03-01"]),
        ],
    };
    let library = create_library(
        &config(),
        &ledger,
        &Restrictions::default(),
        &thumbnails(&["a.mp4", "b.mp4", "c.mp4"]),
    )
    .unwrap();
    let dates: Vec<Option<Date>> = library.videos.iter().map(|v| v.date).collect();
    assert_eq!(dates, vec![date(2024, 3, 1), date(2023, 12, 31), None]);
    assert_eq!(public_names(&library), strings(&["a.mp4", "b.mp4", "c.mp4"]));
}

#[test]
fn equal_dates_are_ordered_by_name() {
    let ledger = TagsFile {
        videos: vec![
            video("n2.mp4", &[]),
            video("m.mp4", &["2024-01-01"]),
            video("n1.mp4", &[]),
            video("b.mp4", &["2024-01-01"]),
            video("z.mp4", &["2024-01-02"]),
            video("B.mp4", &["2024-01-01"]),
        ],
    };
    let library = create_library(
        &config(),
        &ledger,
        &Restrictions::default(),
        &thumbnails(&["n2.mp4", "m.mp4", "n1.mp4", "b.mp4", "z.mp4", "B.mp4"]),
    )
    .unwrap();
    assert_eq!(
        public_names(&library),
        strings(&["z.mp4", "B.mp4", "b.mp4", "m.mp4", "n1.mp4", "n2.mp4"])
    );
}

#[test]
fn restricted_videos_are_ordered_by_their_hidden_name() {
    let ledger = TagsFile {
        videos: vec![
            video("c.mp4", &["2024-01-01"]),
            video("b.mp4", &["2024-01-01", "private"]),
            video("a.mp4", &["2024-01-01"]),
        ],
    };
    let rules = Restrictions {
        rules: vec![rule("family", &["private"], &[], "secret")],
    };
    let library = create_library(
        &config(),
        &ledger,
        &rules,
        &thumbnails(&["a.mp4", "b.mp4", "c.mp4"]),
    )
    .unwrap();
    assert_eq!(
        public_names(&library),
        strings(&["a.mp4", "<restricted>", "c.mp4"])
    );
    assert_eq!(library.videos[1].thumbnail, "b.mp4.webp");
    assert_eq!(library.videos[1].tags, strings(&["2024-01-01", "private"]));
    match &library.videos[1].access {
        VideoAccess::Restricted { accesses } => {
            assert_eq!(accesses.len(), 1);
            assert_eq!(open(&accesses[0], "secret").unwrap(), "b.mp4");
        }
        VideoAccess::Public { .. } => panic!("the rule matches"),
    }
}

#[test]
fn library_of_an_empty_catalog_is_empty() {
    let library = create_library(
        &config(),
        &TagsFile::default(),
        &Restrictions::default(),
        &Vec::new(),
    )
    .unwrap();
    assert!(library.videos.is_empty());
}

#[test]
fn any_missing_thumbnail_aborts_the_library() {
    let ledger = TagsFile {
        videos: vec![video("a.mp4", &["2024-03-01"]), video("b.mp4", &[])],
    };
    assert_eq!(
        create_library(
            &config(),
            &ledger,
            &Restrictions::default(),
            &thumbnails(&["a.mp4"]),
        )
        .unwrap_err(),
        Error::MissingThumbnail
    );
}
