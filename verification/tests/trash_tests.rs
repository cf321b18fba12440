use aura_sync::trash::{
    TrashConfig, TrashEntry, days_remaining, get_trash_dir, get_trash_path, list_trash,
    plan_move_to_trash, plan_restore, select_expired, trash_entry_paths,
};
use aura_sync::meta::{encode_meta, parse_meta, TrashMeta};
use aura_sync::timefmt::{compact_stamp, parse_rfc3339, rfc3339_utc};

#[test]
fn test_get_trash_path() {
    let trash = get_trash_path("/home/user/photos");
    assert_eq!(trash, "/home/user/photos/.aura_trash");
}

#[test]
fn test_trash_config_default() {
    let config = TrashConfig::default();
    assert_eq!(config.retention_days, 30);
    assert!(config.auto_cleanup);
}

#[test]
fn trash_dir_of_slash_terminated_base() {
    assert_eq!(get_trash_dir("/photos/"), "/photos/.aura_trash");
    assert_eq!(get_trash_dir("/photos"), "/photos/.aura_trash");
}

#[test]
fn move_to_trash_missing_source_is_refused() {
    // The source does not exist: the exact error, and nothing to create.
    let r = plan_move_to_trash("/photos/b.jpg", "/photos", false, 0, 0, 0);
    assert_eq!(r.err(), Some("Source file does not exist".to_string()));
}

#[test]
fn move_to_trash_needs_a_file_name() {
    let r = plan_move_to_trash("/photos/", "/photos", true, 0, 0, 0);
    assert_eq!(r.err(), Some("Invalid file name".to_string()));
    let r2 = plan_move_to_trash("/photos/..", "/photos", true, 0, 0, 0);
    assert_eq!(r2.err(), Some("Invalid file name".to_string()));
}

#[test]
fn same_second_same_name_moves_get_distinct_ids() {
    // Two files with equal basenames trashed into one root in the same
    // second: the move counters keep the entry names apart.
    let now: i64 = 1_000_000_000;
    let p1 = plan_move_to_trash("/photos/x/a.jpg", "/photos", true, 1, now, 1).unwrap();
    let p2 = plan_move_to_trash("/photos/y/a.jpg", "/photos", true, 2, now, 2).unwrap();
    assert_ne!(p1.item.id, p2.item.id);
    assert_ne!(p1.trash_path, p2.trash_path);
    assert_ne!(p1.meta_path, p2.meta_path);
}

#[test]
fn move_to_trash_plan_pins_every_path() {
    let now: i64 = 1_000_000_000;
    let p = plan_move_to_trash("/photos/a.jpg", "/photos", true, 100, now, 7).unwrap();
    let stamp = compact_stamp(now);
    assert_eq!(stamp, "20010909_014640");
    assert_eq!(p.trash_dir, "/photos/.aura_trash");
    assert_eq!(p.trash_file, format!("7_{}_a.jpg", stamp));
    assert_eq!(p.trash_path, format!("/photos/.aura_trash/7_{}_a.jpg", stamp));
    assert_eq!(p.meta_path, format!("{}.meta", p.trash_path));
    assert_eq!(p.item.id, p.trash_file);
    assert_eq!(p.item.original_path, "/photos/a.jpg");
    assert_eq!(p.item.trashed_at, rfc3339_utc(now));
    assert_eq!(p.item.size_bytes, 100);
    assert_eq!(p.item.days_remaining, 30);
    let m = parse_meta(p.meta_text.as_str()).unwrap();
    assert_eq!(m.original_path, "/photos/a.jpg");
    assert_eq!(m.trashed_at, rfc3339_utc(now));
    assert_eq!(m.size_bytes, 100);
}

#[test]
fn meta_encodes_canonically() {
    let m = TrashMeta {
        original_path: "/a/b.jpg".to_string(),
        trashed_at: "2020-01-01T00:00:00+00:00".to_string(),
        size_bytes: 123,
    };
    let text = encode_meta(&m);
    assert_eq!(
        text,
        "{\"original_path\":\"/a/b.jpg\",\"trashed_at\":\"2020-01-01T00:00:00+00:00\",\"size_bytes\":123}"
    );
    let back = parse_meta(text.as_str()).unwrap();
    assert_eq!(back.original_path, "/a/b.jpg");
    assert_eq!(back.trashed_at, "2020-01-01T00:00:00+00:00");
    assert_eq!(back.size_bytes, 123);
}

#[test]
fn meta_round_trips_escapes_and_extremes() {
    let m = TrashMeta {
        original_path: "/odd \"dir\"/ba\\ck.jpg".to_string(),
        trashed_at: "1970-01-01T00:00:00+00:00".to_string(),
        size_bytes: u64::MAX,
    };
    let text = encode_meta(&m);
    let back = parse_meta(text.as_str()).unwrap();
    assert_eq!(back.original_path, m.original_path);
    assert_eq!(back.trashed_at, m.trashed_at);
    assert_eq!(back.size_bytes, u64::MAX);
}

#[test]
fn meta_escapes_control_characters_as_json() {
    let m = TrashMeta {
        original_path: "/tab\there\u{1}.jpg".to_string(),
        trashed_at: "t".to_string(),
        size_bytes: 2,
    };
    let text = encode_meta(&m);
    assert_eq!(
        text,
        "{\"original_path\":\"/tab\\u0009here\\u0001.jpg\",\"trashed_at\":\"t\",\"size_bytes\":2}"
    );
    let back = parse_meta(text.as_str()).unwrap();
    assert_eq!(back.original_path, m.original_path);
}

#[test]
fn meta_rejects_what_it_did_not_write() {
    assert!(parse_meta("").is_none());
    assert!(parse_meta("{}").is_none());
    assert!(parse_meta("{\"original_path\":\"/a\"}").is_none());
    assert!(parse_meta("{\"original_path\":\"/a\",\"trashed_at\":\"t\",\"size_bytes\":}").is_none());
    // an escape this format does not use
    assert!(
        parse_meta("{\"original_path\":\"\\n\",\"trashed_at\":\"t\",\"size_bytes\":1}").is_none()
    );
    // hex escapes outside the control range, or cut short
    assert!(
        parse_meta("{\"original_path\":\"\\u0041\",\"trashed_at\":\"t\",\"size_bytes\":1}")
            .is_none()
    );
    assert!(parse_meta("{\"original_path\":\"\\u00").is_none());
    // one past the largest size that fits
    assert!(parse_meta(
        "{\"original_path\":\"/a\",\"trashed_at\":\"t\",\"size_bytes\":18446744073709551616}"
    )
    .is_none());
    // trailing text
    assert!(parse_meta(
        "{\"original_path\":\"/a\",\"trashed_at\":\"t\",\"size_bytes\":1}x"
    )
    .is_none());
}

#[test]
fn days_remaining_counts_whole_days() {
    let t: i64 = 1_000_000_000;
    assert_eq!(days_remaining(t, t, 30), 30);
    assert_eq!(days_remaining(t + 86_399, t, 30), 30);
    assert_eq!(days_remaining(t + 86_400, t, 30), 29);
    assert_eq!(days_remaining(t + 29 * 86_400, t, 30), 1);
    assert_eq!(days_remaining(t + 30 * 86_400, t, 30), 0);
    assert_eq!(days_remaining(t + 31 * 86_400, t, 30), 0);
    // a clock that ran backwards never shortens retention
    assert_eq!(days_remaining(t - 86_400, t, 30), 31);
}

#[test]
fn listing_reports_expiry_and_sweep_purges_it() {
    // One entry trashed 31 days ago and one trashed now, retention 30: the
    // old one lists zero days remaining and is exactly what the sweep takes.
    let now: i64 = 1_000_000_000 + 31 * 86_400;
    let old_meta = encode_meta(&TrashMeta {
        original_path: "/photos/old.jpg".to_string(),
        trashed_at: rfc3339_utc(1_000_000_000),
        size_bytes: 5,
    });
    let new_meta = encode_meta(&TrashMeta {
        original_path: "/photos/new.jpg".to_string(),
        trashed_at: rfc3339_utc(now),
        size_bytes: 6,
    });
    let entries = vec![
        TrashEntry {
            file_name: "20010909_014640_old.jpg".to_string(),
            trash_path: "/photos/.aura_trash/20010909_014640_old.jpg".to_string(),
            meta_text: Some(old_meta),
        },
        TrashEntry {
            file_name: "20011010_014640_new.jpg".to_string(),
            trash_path: "/photos/.aura_trash/20011010_014640_new.jpg".to_string(),
            meta_text: Some(new_meta),
        },
        TrashEntry {
            file_name: "unreadable.jpg".to_string(),
            trash_path: "/photos/.aura_trash/unreadable.jpg".to_string(),
            meta_text: None,
        },
    ];
    let items = list_trash(&entries, now, 30);
    assert_eq!(items.len(), 2);
    assert_eq!(items[0].id, "20010909_014640_old.jpg");
    assert_eq!(items[0].original_path, "/photos/old.jpg");
    assert_eq!(items[0].days_remaining, 0);
    assert_eq!(items[0].size_bytes, 5);
    assert_eq!(items[1].days_remaining, 30);

    let expired = select_expired(&items);
    assert_eq!(expired, vec!["20010909_014640_old.jpg".to_string()]);
}

#[test]
fn listing_tolerates_unparseable_timestamps() {
    let meta = encode_meta(&TrashMeta {
        original_path: "/p/x.jpg".to_string(),
        trashed_at: "not a timestamp".to_string(),
        size_bytes: 1,
    });
    let entries = vec![TrashEntry {
        file_name: "x.jpg".to_string(),
        trash_path: "/p/.aura_trash/x.jpg".to_string(),
        meta_text: Some(meta),
    }];
    let items = list_trash(&entries, 0, 30);
    assert_eq!(items.len(), 1);
    assert_eq!(items[0].days_remaining, 30);
}

#[test]
fn restore_plan_round_trips_the_original_path() {
    let meta = encode_meta(&TrashMeta {
        original_path: "/home/user/photos/pic.jpg".to_string(),
        trashed_at: rfc3339_utc(0),
        size_bytes: 9,
    });
    let plan = plan_restore(true, Some(&meta)).unwrap();
    assert_eq!(plan.original_path, "/home/user/photos/pic.jpg");
    assert_eq!(plan.parent_dir, "/home/user/photos");
}

#[test]
fn restore_refuses_missing_pieces() {
    assert_eq!(
        plan_restore(false, None).err(),
        Some("Trash item not found".to_string())
    );
    assert_eq!(
        plan_restore(true, None).err(),
        Some("Failed to read metadata".to_string())
    );
    let junk = "not json".to_string();
    assert_eq!(
        plan_restore(true, Some(&junk)).err(),
        Some("Invalid metadata".to_string())
    );
}

#[test]
fn entry_paths_are_derived_from_the_identifier() {
    let (p, m) = trash_entry_paths("/photos", "20010909_014640_a.jpg");
    assert_eq!(p, "/photos/.aura_trash/20010909_014640_a.jpg");
    assert_eq!(m, "/photos/.aura_trash/20010909_014640_a.jpg.meta");
}

#[test]
fn timestamps_render_and_parse_back() {
    assert_eq!(rfc3339_utc(0), "1970-01-01T00:00:00+00:00");
    assert_eq!(compact_stamp(0), "19700101_000000");
    assert_eq!(compact_stamp(1_431_648_000), "20150515_000000");
    assert_eq!(parse_rfc3339(rfc3339_utc(1_431_648_000).as_str()), Some(1_431_648_000));
    assert_eq!(parse_rfc3339("not a timestamp"), None);
}
