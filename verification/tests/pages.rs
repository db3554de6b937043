use lindy_videos::copy_new_videos::destination_name;
use lindy_videos::error::Error;
use lindy_videos::library::{Library, LibraryVideo, VideoAccess};
use lindy_videos::prepare_new_videos_for_tagging::{new_batch, part_name};
use lindy_videos::re_encode_videos::{choose_scale, Scale};
use lindy_videos::render_pages::{all_tags, clean, tag_data};
use lindy_videos::sync_build_videos::needs_copy;
use lindy_videos::tags_file::TagsVideo;
use lindy_videos::text::push_decimal;
use lindy_videos::update_thumbnails::{plan_thumbnails, thumbnail_hash, thumbnail_name};

fn strings(items: &[&str]) -> Vec<String> {
    items.iter().map(|t| t.to_string()).collect()
}

fn video(name: &str) -> TagsVideo {
    TagsVideo {
        name: name.to_string(),
        tags: Vec::new(),
    }
}

fn library_video(tags: &[&str]) -> LibraryVideo {
    LibraryVideo {
        date: None,
        tags: strings(tags),
        thumbnail: "t.webp".to_string(),
        access: VideoAccess::Public {
            canonical_name: "v.mp4".to_string(),
        },
    }
}

#[test]
fn decimal_digits() {
    for n in [0u64, 1, 9, 10, 11, 99, 100, 12345, 1_000_000, u64::MAX] {
        let mut out = "x".to_string();
        push_decimal(&mut out, n);
        assert_eq!(out, format!("x{}", n));
    }
}

#[test]
fn thumbnail_is_named_after_the_start_of_the_hash() {
    assert_eq!(thumbnail_hash("0123456789abcdef.mp4", 8).unwrap(), "01234567");
    assert_eq!(thumbnail_hash("0123456789abcdef.mp4", 0).unwrap(), "");
    assert_eq!(thumbnail_hash("0123456789abcdef.mp4", 16).unwrap(), "0123456789abcdef");
    assert_eq!(thumbnail_hash("a.b.mp4", 3).unwrap(), "a.b");
    assert_eq!(thumbnail_name("01234567"), "01234567.webp");
}

#[test]
fn short_hash_is_taken_whole() {
    assert_eq!(thumbnail_hash("0123.mp4", 8).unwrap(), "0123");
}

#[test]
fn thumbnail_needs_a_full_stop_in_the_name() {
    assert_eq!(thumbnail_hash("0123", 2).unwrap_err(), Error::MissingExtension);
}

#[test]
fn plan_lists_every_video_and_the_missing_thumbnails() {
    let videos = vec![video("aaaa1111.mp4"), video("bbbb2222.mp4"), video("aaaa3333.mkv")];
    let plan = plan_thumbnails(&videos, 4, &strings(&["bbbb", "cccc"])).unwrap();
    let mapping: Vec<(String, String)> = plan
        .mapping
        .iter()
        .map(|t| (t.video.clone(), t.thumbnail.clone()))
        .collect();
    assert_eq!(
        mapping,
        vec![
            ("aaaa1111.mp4".to_string(), "aaaa.webp".to_string()),
            ("bbbb2222.mp4".to_string(), "bbbb.webp".to_string()),
            ("aaaa3333.mkv".to_string(), "aaaa.webp".to_string()),
        ]
    );
    assert_eq!(plan.missing, vec![0, 2]);
}

#[test]
fn plan_fails_on_a_name_without_full_stop() {
    let videos = vec![video("aaaa1111.mp4"), video("bbbb2222")];
    assert_eq!(
        plan_thumbnails(&videos, 4, &Vec::new()).unwrap_err(),
        Error::MissingExtension
    );
}

#[test]
fn copy_is_needed_unless_the_same_size_is_there() {
    assert!(needs_copy(10, None));
    assert!(needs_copy(10, Some(9)));
    assert!(!needs_copy(10, Some(10)));
    assert!(!needs_copy(0, Some(0)));
}

#[test]
fn destination_names() {
    assert_eq!(destination_name("video.mp4", 1).unwrap(), "video.mp4");
    assert_eq!(destination_name("noext", 1).unwrap(), "noext");
    assert_eq!(destination_name("video.mp4", 2).unwrap(), "video (2).mp4");
    assert_eq!(destination_name("a.b.mp4", 13).unwrap(), "a.b (13).mp4");
    assert_eq!(destination_name("video.mp4", 0).unwrap(), "video (0).mp4");
    assert_eq!(
        destination_name("noext", 2).unwrap_err(),
        Error::MissingExtension
    );
}

#[test]
fn scale_holds_the_smaller_side() {
    assert_eq!(choose_scale(1920, 1080, 1080), None);
    assert_eq!(choose_scale(1080, 1920, 1080), None);
    assert_eq!(
        choose_scale(3840, 2160, 1080),
        Some(Scale::ConstraintHeight(1080))
    );
    assert_eq!(
        choose_scale(2160, 3840, 1080),
        Some(Scale::ConstraintWidth(1080))
    );
    assert_eq!(
        choose_scale(2000, 2000, 1080),
        Some(Scale::ConstraintWidth(1080))
    );
}

#[test]
fn batch_names_and_new_batches() {
    assert_eq!(part_name(0), "part-0");
    assert_eq!(part_name(12), "part-12");
    let batch = new_batch(&strings(&["a.mp4", "b.mp4"]));
    assert_eq!(batch.to_string(), "[a.mp4]\n\n[b.mp4]\n");
    assert!(new_batch(&Vec::new()).videos.is_empty());
}

#[test]
fn clean_keeps_ascii_letters_and_digits() {
    assert_eq!(clean("Lindy Hop 2024!"), "Lindy-Hop-2024-");
    assert_eq!(clean("a_b-c.d"), "a-b-c-d");
    assert_eq!(clean("é"), "-");
    assert_eq!(clean(""), "");
}

#[test]
fn tag_page_names_are_transliterated_and_cleaned() {
    let data = tag_data(&"Été à Paris".to_string());
    assert_eq!(data.name, "Été à Paris");
    assert_eq!(data.clean_name, "Ete-a-Paris");
    assert_eq!(tag_data(&"2024-01-01".to_string()).clean_name, "2024-01-01");
}

#[test]
fn all_tags_lists_each_tag_once_in_order_of_first_appearance() {
    let library = Library {
        videos: vec![
            library_video(&["b", "a"]),
            library_video(&[]),
            library_video(&["a", "c", "b", "c"]),
        ],
    };
    assert_eq!(all_tags(&library), strings(&["b", "a", "c"]));
    assert!(all_tags(&Library { videos: Vec::new() }).is_empty());
}
