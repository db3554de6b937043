use lindy_videos::order::{key_less, sort_order, text_less, SortKey};

fn key(rank: u64, text: &str) -> SortKey {
    SortKey {
        rank,
        text: text.chars().collect(),
    }
}

#[test]
fn text_order_is_code_point_order() {
    let texts = ["", "a", "A", "ab", "b", "é", "z", "aa", "\u{10000}", "\u{ffff}", "a\u{ffff}"];
    for a in texts {
        for b in texts {
            let left: Vec<char> = a.chars().collect();
            let right: Vec<char> = b.chars().collect();
            assert_eq!(text_less(&left, &right), a < b, "{:?} {:?}", a, b);
        }
    }
}

#[test]
fn keys_compare_by_rank_then_text() {
    assert!(key_less(&key(1, "z"), &key(2, "a")));
    assert!(!key_less(&key(2, "a"), &key(1, "z")));
    assert!(key_less(&key(1, "a"), &key(1, "b")));
    assert!(!key_less(&key(1, "a"), &key(1, "a")));
}

#[test]
fn sort_order_of_nothing() {
    assert_eq!(sort_order(&Vec::new()), Vec::<usize>::new());
}

#[test]
fn sort_order_sorts_by_rank_then_text() {
    let keys = vec![key(5, "b"), key(1, "z"), key(5, "a"), key(0, ""), key(1, "y")];
    assert_eq!(sort_order(&keys), vec![3, 4, 1, 2, 0]);
}

#[test]
fn sort_order_keeps_equal_keys_in_place() {
    let keys = vec![key(1, "a"), key(0, "x"), key(1, "a"), key(0, "x"), key(1, "a")];
    assert_eq!(sort_order(&keys), vec![1, 3, 0, 2, 4]);
}

#[test]
fn sort_order_agrees_with_a_stable_sort() {
    let mut seed = 12345u64;
    let mut keys = Vec::new();
    for _ in 0..200 {
        seed = seed.wrapping_mul(6364136223846793005).wrapping_add(1442695040888963407);
        let rank = (seed >> 33) % 5;
        let text = format!("{}", (seed >> 40) % 7);
        keys.push(key(rank, &text));
    }
    let mut expected: Vec<usize> = (0..keys.len()).collect();
    expected.sort_by_key(|&i| (keys[i].rank, keys[i].text.iter().collect::<String>()));
    assert_eq!(sort_order(&keys), expected);
}
