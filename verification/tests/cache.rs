use todo_makepad::{CheckBoxId, WidgetActionItem, WidgetCache, WidgetUid};

fn numbered(next: u32) -> (u32, Option<String>) {
    (next + 1, Some(format!("widget {}", next)))
}

fn refusing(next: u32) -> (u32, Option<String>) {
    (next, None)
}

#[test]
fn key_is_the_position() {
    assert_eq!(CheckBoxId::of_position(0), CheckBoxId(0));
    assert_eq!(CheckBoxId::of_position(3), CheckBoxId(3));
    assert_eq!(CheckBoxId::of_position(3).0, 3);
    assert_ne!(CheckBoxId::of_position(3), CheckBoxId::of_position(4));
    assert_eq!(CheckBoxId::default(), CheckBoxId(0));
}

#[test]
fn new_cache_holds_nothing() {
    let cache: WidgetCache<String> = WidgetCache::new();
    assert_eq!(cache.len(), 0);
    assert!(!cache.contains(CheckBoxId(0)));
    assert_eq!(cache.get(CheckBoxId(0)), None);
    assert!(!cache.is_visited(CheckBoxId(0)));
    let other: WidgetCache<String> = WidgetCache::default();
    assert_eq!(other.len(), 0);
}

#[test]
fn get_or_create_makes_then_reuses() {
    let mut cache: WidgetCache<String> = WidgetCache::new();
    let (next, made) = cache.get_or_create(0u32, CheckBoxId(7), &numbered);
    assert_eq!(made, Some(&"widget 0".to_string()));
    assert_eq!(next, 1);
    let (next, again) = cache.get_or_create(next, CheckBoxId(7), &numbered);
    assert_eq!(again, Some(&"widget 0".to_string()));
    assert_eq!(next, 1);
    let (next, other) = cache.get_or_create(next, CheckBoxId(2), &numbered);
    assert_eq!(other, Some(&"widget 1".to_string()));
    assert_eq!(next, 2);
    assert_eq!(cache.len(), 2);
    assert!(cache.contains(CheckBoxId(7)));
    assert!(cache.contains(CheckBoxId(2)));
    assert!(!cache.contains(CheckBoxId(0)));
    assert_eq!(cache.get(CheckBoxId(2)), Some(&"widget 1".to_string()));
}

#[test]
fn get_or_create_without_a_widget_holds_nothing() {
    let mut cache: WidgetCache<String> = WidgetCache::new();
    let (next, made) = cache.get_or_create(4u32, CheckBoxId(0), &refusing);
    assert_eq!(made, None);
    assert_eq!(next, 4);
    assert_eq!(cache.len(), 0);
    assert!(!cache.contains(CheckBoxId(0)));
}

#[test]
fn get_or_create_does_not_mark() {
    let mut cache: WidgetCache<String> = WidgetCache::new();
    let _ = cache.get_or_create(0u32, CheckBoxId(1), &numbered);
    assert!(!cache.is_visited(CheckBoxId(1)));
    cache.mark_visited(CheckBoxId(1));
    assert!(cache.is_visited(CheckBoxId(1)));
}

#[test]
fn marking_an_absent_key_records_nothing() {
    let mut cache: WidgetCache<String> = WidgetCache::new();
    cache.mark_visited(CheckBoxId(5));
    assert!(!cache.is_visited(CheckBoxId(5)));
    assert_eq!(cache.len(), 0);
}

#[test]
fn retain_visited_keeps_the_marked() {
    let mut cache: WidgetCache<String> = WidgetCache::new();
    let mut next = 0u32;
    for key in [10u64, 11, 12, 13, 14] {
        let (n, _) = cache.get_or_create(next, CheckBoxId(key), &numbered);
        next = n;
    }
    cache.mark_visited(CheckBoxId(11));
    cache.mark_visited(CheckBoxId(14));
    cache.retain_visited();
    assert_eq!(cache.len(), 2);
    assert_eq!(cache.get(CheckBoxId(11)), Some(&"widget 1".to_string()));
    assert_eq!(cache.get(CheckBoxId(14)), Some(&"widget 4".to_string()));
    assert!(!cache.contains(CheckBoxId(10)));
    assert!(!cache.contains(CheckBoxId(12)));
    assert!(!cache.contains(CheckBoxId(13)));
    assert!(!cache.is_visited(CheckBoxId(11)));
    assert!(!cache.is_visited(CheckBoxId(14)));
    // the marks are gone, so the next pass drops the rest
    cache.retain_visited();
    assert_eq!(cache.len(), 0);
}

#[test]
fn slots_list_every_widget_once() {
    let mut cache: WidgetCache<String> = WidgetCache::new();
    let mut next = 0u32;
    for key in [3u64, 0, 9, 1] {
        let (n, _) = cache.get_or_create(next, CheckBoxId(key), &numbered);
        next = n;
    }
    cache.mark_visited(CheckBoxId(0));
    cache.mark_visited(CheckBoxId(9));
    cache.mark_visited(CheckBoxId(1));
    cache.retain_visited();
    let mut seen: Vec<(u64, String)> = Vec::new();
    for slot in 0..cache.len() {
        let key = cache.key_at(slot);
        assert_eq!(cache.get(key), Some(cache.widget_at(slot)));
        seen.push((key.0, cache.widget_at(slot).clone()));
    }
    seen.sort();
    assert_eq!(
        seen,
        vec![
            (0, "widget 1".to_string()),
            (1, "widget 3".to_string()),
            (9, "widget 2".to_string()),
        ]
    );
}

#[test]
fn action_item_carries_action_and_identity() {
    let item = WidgetActionItem::new("toggled", WidgetUid(42));
    assert_eq!(item.action, "toggled");
    assert_eq!(item.widget_uid, WidgetUid(42));
}
