use lindy_videos::library::{extract_date, parse_date, sorted_tags, Date};
use lindy_videos::tags_file::TagsFile;
use regex::Regex;

struct Dice(u64);

impl Dice {
    fn roll(&mut self, sides: usize) -> usize {
        self.0 = self
            .0
            .wrapping_mul(6364136223846793005)
            .wrapping_add(1442695040888963407);
        ((self.0 >> 33) as usize) % sides
    }

    fn text(&mut self, alphabet: &[char], max_len: usize) -> String {
        let len = self.roll(max_len + 1);
        (0..len).map(|_| alphabet[self.roll(alphabet.len())]).collect()
    }
}

fn parse_with_std(text: &str) -> Option<Vec<(String, Vec<String>)>> {
    let mut videos: Vec<(String, Vec<String>)> = Vec::new();
    let mut current: Option<(String, Vec<String>)> = None;
    for line in text.lines() {
        let line = line.trim();
        if let Some(name) = line
            .strip_prefix('[')
            .and_then(|line| line.strip_suffix(']'))
        {
            if let Some(video) = current.replace((name.trim().to_string(), Vec::new())) {
                videos.push(video);
            }
        } else if !line.is_empty() {
            current.as_mut()?.1.push(line.to_string());
        }
    }
    if let Some(video) = current {
        videos.push(video);
    }
    Some(videos)
}

fn date_with_regex(pattern: &Regex, tags: &[String]) -> Option<Date> {
    for tag in tags {
        if let Some(captures) = pattern.captures(tag) {
            let year = captures[1].parse();
            let month = captures[2].parse();
            let day = captures[3].parse();
            if let (Ok(year), Ok(month), Ok(day)) = (year, month, day) {
                return Some(Date { year, month, day });
            }
        }
    }
    None
}

#[test]
fn parsing_agrees_with_lines_and_trim_of_std() {
    let alphabet = [
        '[', ']', 'a', 'b', ' ', '\n', '\n', '\r', '\t', '\u{a0}', '\u{2028}', 'é', '.', '\u{b}',
    ];
    let mut dice = Dice(7);
    for _ in 0..20_000 {
        let text = dice.text(&alphabet, 24);
        let expected = parse_with_std(&text);
        let found = TagsFile::from_str(&text).ok().map(|file| {
            file.videos
                .into_iter()
                .map(|v| (v.name, v.tags))
                .collect::<Vec<_>>()
        });
        assert_eq!(found, expected, "{:?}", text);
    }
}

#[test]
fn writing_then_reading_gives_the_text_back_once_normalised() {
    let alphabet = ['[', ']', 'a', ' ', '\n', '\n', '\r', 'é'];
    let mut dice = Dice(11);
    for _ in 0..5_000 {
        let text = dice.text(&alphabet, 24);
        if let Ok(file) = TagsFile::from_str(&text) {
            let written = file.to_string();
            let again = TagsFile::from_str(&written).unwrap().to_string();
            assert_eq!(again, written, "{:?}", text);
        }
    }
}

#[test]
fn dates_agree_with_the_pattern_of_four_two_and_two_digits() {
    let pattern = Regex::new(r"^(\d\d\d\d)-(\d\d)-(\d\d)$").unwrap();
    let alphabet = ['0', '1', '9', '-', '-', 'a', ' ', '\n', '٣', '５'];
    let mut dice = Dice(13);
    for _ in 0..20_000 {
        let mut tag: Vec<char> = "2023-02-05".chars().collect();
        for _ in 0..dice.roll(4) {
            let at = dice.roll(tag.len() + 1);
            let c = alphabet[dice.roll(alphabet.len())];
            match dice.roll(3) {
                0 if at < tag.len() => tag[at] = c,
                1 if at < tag.len() => {
                    tag.remove(at);
                }
                _ => tag.insert(at, c),
            }
        }
        let tag: String = tag.into_iter().collect();
        let tags = vec!["social".to_string(), tag.clone(), "1999-12-31".to_string()];
        assert_eq!(parse_date(&tag), date_with_regex(&pattern, &tags[1..2]), "{:?}", tag);
        assert_eq!(extract_date(&tags), date_with_regex(&pattern, &tags), "{:?}", tag);
    }
}

#[test]
fn sorted_tags_agree_with_the_sort_of_std() {
    let alphabet = ['a', 'b', 'B', 'é', '0', ' ', '\u{10000}', '\u{ffff}'];
    let mut dice = Dice(17);
    for _ in 0..2_000 {
        let count = dice.roll(8);
        let tags: Vec<String> = (0..count).map(|_| dice.text(&alphabet, 3)).collect();
        let mut expected = tags.clone();
        expected.sort();
        assert_eq!(sorted_tags(&tags), expected, "{:?}", tags);
    }
}
