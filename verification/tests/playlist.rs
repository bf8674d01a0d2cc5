use sparrow_tv::playlist::{Playlist, PlaylistEntry};
use sparrow_tv::record::{get, EntryKey, MalformedEntry};

fn abc() -> PlaylistEntry {
    PlaylistEntry {
        duration: -1,
        tvg_id: "ABC.se".to_string(),
        tvg_name: "ABC FHD SE".to_string(),
        tvg_logo: "https://logo.com".to_string(),
        group_title: "Sweden".to_string(),
        name: "ABC FHD SE".to_string(),
        url: "http://abc.xyz:8080/user/pass/360".to_string(),
    }
}

fn entry(id: &str, group: &str, name: &str, url: &str) -> PlaylistEntry {
    PlaylistEntry {
        duration: -1,
        tvg_id: id.to_string(),
        tvg_name: name.to_string(),
        tvg_logo: "http://logo".to_string(),
        group_title: group.to_string(),
        name: name.to_string(),
        url: url.to_string(),
    }
}

#[test]
fn parse_test_parse_playlist_entry() {
    let test_channel = r#"
#EXTINF:-1 xui-id="{XUI_ID}" tvg-id="ABC.se" tvg-name="ABC FHD SE" tvg-logo="https://logo.com" group-title="Sweden",ABC FHD SE
http://abc.xyz:8080/user/pass/360
        "#;
    assert_eq!(
        PlaylistEntry::parse(test_channel.trim()),
        Ok((
            "",
            PlaylistEntry {
                duration: -1,
                tvg_id: "ABC.se".to_string(),
                tvg_name: "ABC FHD SE".to_string(),
                tvg_logo: "https://logo.com".to_string(),
                group_title: "Sweden".to_string(),
                name: "ABC FHD SE".to_string(),
                url: "http://abc.xyz:8080/user/pass/360".to_string()
            }
        ))
    );
}

#[test]
fn parse_alt_test_parse_playlist_entry() {
    let test_channel = r#"
#EXTINF:-1 xui-id="{XUI_ID}" tvg-id="ABC.se" tvg-name="ABC FHD SE" tvg-logo="https://logo.com" group-title="Sweden",ABC FHD SE
http://abc.xyz:8080/user/pass/360
        "#;
    assert_eq!(
        PlaylistEntry::parse(test_channel.trim()).unwrap().1,
        PlaylistEntry {
            duration: -1,
            tvg_id: "ABC.se".to_string(),
            tvg_name: "ABC FHD SE".to_string(),
            tvg_logo: "https://logo.com".to_string(),
            group_title: "Sweden".to_string(),
            name: "ABC FHD SE".to_string(),
            url: "http://abc.xyz:8080/user/pass/360".to_string()
        }
    );
}

#[test]
fn parses_the_sample_record() {
    let text = "#EXTINF:-1 xui-id=\"{X}\" tvg-id=\"abc.se\" tvg-name=\"ABC\" tvg-logo=\"http://logo\" group-title=\"Sweden\",ABC FHD\nhttp://host/a/b/360";
    let (rest, e) = PlaylistEntry::parse(text).unwrap();
    assert_eq!(rest, "");
    assert_eq!(e.duration, -1);
    assert_eq!(e.tvg_id, "abc.se");
    assert_eq!(e.tvg_name, "ABC");
    assert_eq!(e.tvg_logo, "http://logo");
    assert_eq!(e.group_title, "Sweden");
    assert_eq!(e.name, "ABC FHD");
    assert_eq!(e.url, "http://host/a/b/360");
}

#[test]
fn attribute_order_does_not_matter() {
    let a = "#EXTINF:-1 xui-id=\"1\" tvg-id=\"i\" tvg-name=\"n\" tvg-logo=\"l\" group-title=\"g\",Name\nhttp://u";
    let b = "#EXTINF:-1 group-title=\"g\" tvg-logo=\"l\" xui-id=\"1\" tvg-name=\"n\" tvg-id=\"i\",Name\nhttp://u";
    let c = "#EXTINF:-1 tvg-name=\"n\" tvg-id=\"i\" group-title=\"g\" xui-id=\"1\" tvg-logo=\"l\",Name\nhttp://u";
    let ea = PlaylistEntry::parse(a).unwrap().1;
    assert_eq!(ea, PlaylistEntry::parse(b).unwrap().1);
    assert_eq!(ea, PlaylistEntry::parse(c).unwrap().1);
    assert_eq!(ea.tvg_id, "i");
    assert_eq!(ea.group_title, "g");
}

#[test]
fn unknown_attributes_are_passed_over_and_the_first_of_two_counts() {
    let text = "#EXTINF:0 tvg-id=\"first\" extra=\"x\" xui-id=\"1\" tvg-id=\"second\" tvg-name=\"n\" tvg-logo=\"l\" group-title=\"g\",N\nu";
    let e = PlaylistEntry::parse(text).unwrap().1;
    assert_eq!(e.tvg_id, "first");
    assert_eq!(e.duration, 0);
}

#[test]
fn values_and_name_may_hold_commas_and_spaces() {
    let text = "#EXTINF:-1 xui-id=\"1\" tvg-id=\"a, b\" tvg-name=\"x = y\" tvg-logo=\"\" group-title=\"News, World\",One, Two \"Three\"\nhttp://h/p";
    let e = PlaylistEntry::parse(text).unwrap().1;
    assert_eq!(e.tvg_id, "a, b");
    assert_eq!(e.tvg_name, "x = y");
    assert_eq!(e.tvg_logo, "");
    assert_eq!(e.group_title, "News, World");
    assert_eq!(e.name, "One, Two \"Three\"");
}

#[test]
fn the_rest_after_the_url_line_is_returned() {
    let text = "#EXTINF:7 xui-id=\"1\" tvg-id=\"i\" tvg-name=\"n\" tvg-logo=\"l\" group-title=\"g\",N\nhttp://u\nmore\nlines";
    let (rest, e) = PlaylistEntry::parse(text).unwrap();
    assert_eq!(rest, "\nmore\nlines");
    assert_eq!(e.url, "http://u");
    assert_eq!(e.duration, 7);
}

#[test]
fn duration_is_a_signed_integer() {
    let with = |d: &str| {
        format!("#EXTINF:{} xui-id=\"1\" tvg-id=\"i\" tvg-name=\"n\" tvg-logo=\"l\" group-title=\"g\",N\nu", d)
    };
    assert_eq!(PlaylistEntry::parse(&with("+15")).unwrap().1.duration, 15);
    assert_eq!(PlaylistEntry::parse(&with("-2147483648")).unwrap().1.duration, i32::MIN);
    assert_eq!(PlaylistEntry::parse(&with("2147483647")).unwrap().1.duration, i32::MAX);
    assert_eq!(PlaylistEntry::parse(&with("007")).unwrap().1.duration, 7);
    assert!(PlaylistEntry::parse(&with("2147483648")).is_err());
    assert!(PlaylistEntry::parse(&with("-2147483649")).is_err());
    assert!(PlaylistEntry::parse(&with("99999999999999999999999")).is_err());
    assert!(PlaylistEntry::parse(&with("")).is_err());
    assert!(PlaylistEntry::parse(&with("-")).is_err());
    assert!(PlaylistEntry::parse(&with("1x")).is_err());
}

#[test]
fn malformed_records_are_rejected_with_their_text() {
    let missing_logo = "#EXTINF:-1 xui-id=\"1\" tvg-id=\"i\" tvg-name=\"n\" group-title=\"g\",N\nu";
    assert_eq!(
        PlaylistEntry::parse(missing_logo),
        Err(MalformedEntry { raw_text: missing_logo.to_string() })
    );
    let missing_xui = "#EXTINF:-1 tvg-id=\"i\" tvg-name=\"n\" tvg-logo=\"l\" group-title=\"g\",N\nu";
    assert!(PlaylistEntry::parse(missing_xui).is_err());
    let no_marker = "EXTINF:-1 xui-id=\"1\" tvg-id=\"i\" tvg-name=\"n\" tvg-logo=\"l\" group-title=\"g\",N\nu";
    assert!(PlaylistEntry::parse(no_marker).is_err());
    let no_url_line = "#EXTINF:-1 xui-id=\"1\" tvg-id=\"i\" tvg-name=\"n\" tvg-logo=\"l\" group-title=\"g\",N";
    assert!(PlaylistEntry::parse(no_url_line).is_err());
    let no_comma = "#EXTINF:-1 xui-id=\"1\" tvg-id=\"i\" tvg-name=\"n\" tvg-logo=\"l\" group-title=\"g\"\nu";
    assert!(PlaylistEntry::parse(no_comma).is_err());
    let open_quote = "#EXTINF:-1 xui-id=\"1\" tvg-id=\"i\" tvg-name=\"n\" tvg-logo=\"l\" group-title=\"g,N\nu";
    assert!(PlaylistEntry::parse(open_quote).is_err());
    assert!(PlaylistEntry::parse("").is_err());
}

#[test]
fn an_entry_is_written_with_the_placeholder() {
    assert_eq!(
        abc().to_string(),
        "#EXTINF:-1 xui-id=\"{XUI_ID}\" tvg-id=\"ABC.se\" tvg-name=\"ABC FHD SE\" tvg-logo=\"https://logo.com\" group-title=\"Sweden\",ABC FHD SE\nhttp://abc.xyz:8080/user/pass/360"
    );
    let mut e = abc();
    e.duration = 1200;
    assert!(e.to_string().starts_with("#EXTINF:1200 xui-id="));
    e.duration = i32::MIN;
    assert!(e.to_string().starts_with("#EXTINF:-2147483648 xui-id="));
    e.duration = 0;
    assert!(e.to_string().starts_with("#EXTINF:0 xui-id="));
}

#[test]
fn the_session_id_is_not_kept() {
    let text = "#EXTINF:-1 xui-id=\"secret-session\" tvg-id=\"i\" tvg-name=\"n\" tvg-logo=\"l\" group-title=\"g\",N\nhttp://u";
    let e = PlaylistEntry::parse(text).unwrap().1;
    assert!(!e.to_string().contains("secret-session"));
    assert!(e.to_string().contains("xui-id=\"{XUI_ID}\""));
}

#[test]
fn keys_have_their_texts() {
    assert_eq!(EntryKey::Duration.as_str(), "#EXTINF:");
    assert_eq!(EntryKey::XuiId.as_str(), "xui-id");
    assert_eq!(EntryKey::TvgId.as_str(), "tvg-id");
    assert_eq!(EntryKey::TvgName.as_str(), "tvg-name");
    assert_eq!(EntryKey::TvgLogo.as_str(), "tvg-logo");
    assert_eq!(EntryKey::GroupTitle.as_str(), "group-title");
}

#[test]
fn a_document_is_written_and_read_back() {
    let mut second = entry("b.se", "Sport", "B", "http://h/b/2");
    second.name = "B, the \"second\"".to_string();
    let entries = vec![abc(), second, entry("", "", "", "x")];
    let playlist = Playlist::new(entries.clone());
    let text = playlist.to_m3u();
    assert!(text.starts_with("#EXTM3U\n#EXTINF:-1 xui-id=\"{XUI_ID}\" tvg-id=\"ABC.se\""));
    assert!(!text.ends_with('\n'));
    let again = Playlist::from_str(&text).unwrap();
    assert_eq!(again.entries, entries);
    assert_eq!(again.filtered_entries, entries);
    assert_eq!(again.to_m3u(), text);
}

#[test]
fn the_empty_playlist_is_the_header_line() {
    let playlist = Playlist::new(vec![]);
    assert_eq!(playlist.to_m3u(), "#EXTM3U\n");
    assert_eq!(Playlist::from_str("#EXTM3U\n").unwrap().entries, vec![]);
    assert_eq!(Playlist::from_str("#EXTM3U").unwrap().entries, vec![]);
    assert_eq!(Playlist::from_str("").unwrap().entries, vec![]);
}

#[test]
fn a_document_may_end_its_lines_with_carriage_returns() {
    let text = "#EXTM3U\r\n#EXTINF:-1 xui-id=\"1\" tvg-id=\"i\" tvg-name=\"n\" tvg-logo=\"l\" group-title=\"g\",N\r\nhttp://u\r\n";
    let playlist = Playlist::from_str(text).unwrap();
    assert_eq!(playlist.entries.len(), 1);
    assert_eq!(playlist.entries[0].name, "N");
    assert_eq!(playlist.entries[0].url, "http://u");
}

#[test]
fn white_space_around_a_record_is_dropped() {
    let text = "#EXTM3U\n   #EXTINF:-1 xui-id=\"1\" tvg-id=\"i\" tvg-name=\"n\" tvg-logo=\"l\" group-title=\"g\",N\nhttp://u \t\n";
    let playlist = Playlist::from_str(text).unwrap();
    assert_eq!(playlist.entries[0].url, "http://u");
}

#[test]
fn one_malformed_record_fails_the_document() {
    let good = "#EXTINF:-1 xui-id=\"1\" tvg-id=\"i\" tvg-name=\"n\" tvg-logo=\"l\" group-title=\"g\",N\nhttp://u";
    let bad = "#EXTINF:-1 xui-id=\"1\" tvg-name=\"n\" tvg-logo=\"l\" group-title=\"g\",N\nhttp://v";
    let text = format!("#EXTM3U\n{}\n{}\n{}", good, bad, good);
    assert_eq!(
        Playlist::from_str(&text).unwrap_err(),
        MalformedEntry { raw_text: bad.to_string() }
    );
    let truncated = format!("#EXTM3U\n{}\n#EXTINF:-1 xui-id=\"1\"", good);
    assert_eq!(
        Playlist::from_str(&truncated).unwrap_err(),
        MalformedEntry { raw_text: "#EXTINF:-1 xui-id=\"1\"".to_string() }
    );
}

#[test]
fn groups_are_excluded_by_their_exact_title() {
    let mut playlist = Playlist::new(vec![
        entry("1", "Sport", "a", "u1"),
        entry("2", "Sports", "b", "u2"),
        entry("3", "News", "c", "u3"),
        entry("4", "Sport", "d", "u4"),
        entry("5", "sport", "e", "u5"),
    ]);
    playlist.exclude_groups(vec!["Sport", "Nothing"]);
    let ids: Vec<&str> = playlist.filtered_entries.iter().map(|e| e.tvg_id.as_str()).collect();
    assert_eq!(ids, vec!["2", "3", "5"]);
    assert!(playlist.filtered_entries.iter().all(|e| e.group_title != "Sport"));
    assert_eq!(playlist.entries.len(), 5);
    let once = playlist.filtered_entries.clone();
    playlist.exclude_groups(vec!["Sport", "Nothing"]);
    assert_eq!(playlist.filtered_entries, once);
}

#[test]
fn groups_are_excluded_by_a_snippet_of_their_title() {
    let mut playlist = Playlist::new(vec![
        entry("1", "Sport PL", "a", "u1"),
        entry("2", "FI Movies", "b", "u2"),
        entry("3", "News", "c", "u3"),
        entry("4", "pl lower", "d", "u4"),
        entry("5", "", "e", "u5"),
    ]);
    playlist.exclude_containing(vec!["PL", "FI"]);
    let ids: Vec<&str> = playlist.filtered_entries.iter().map(|e| e.tvg_id.as_str()).collect();
    assert_eq!(ids, vec!["3", "4", "5"]);
    playlist.exclude_containing(vec![""]);
    assert_eq!(playlist.filtered_entries, vec![]);
    assert_eq!(playlist.entries.len(), 5);
}

#[test]
fn links_to_files_are_excluded() {
    let mut playlist = Playlist::new(vec![
        entry("1", "g", "a", "http://host.example/live/1/2/360"),
        entry("2", "g", "b", "http://host.example/movie/1/2/360.mkv"),
        entry("3", "g", "c", "noslash.ts"),
        entry("4", "g", "d", "http://host/dir.d/"),
        entry("5", "g", "e", ""),
        entry("6", "g", "f", "plain"),
    ]);
    playlist.exclude_all_extensions();
    let ids: Vec<&str> = playlist.filtered_entries.iter().map(|e| e.tvg_id.as_str()).collect();
    assert_eq!(ids, vec!["1", "4", "5", "6"]);
}

#[test]
fn the_exclusions_apply_in_order_and_keep_the_full_view() {
    let all = vec![
        entry("1", "Sweden", "a", "http://h/1"),
        entry("2", "France", "b", "http://h/2"),
        entry("3", "Sweden PL", "c", "http://h/3"),
        entry("4", "Sweden", "d", "http://h/4.mp4"),
    ];
    let mut playlist = Playlist::new(all.clone());
    playlist.apply_exclusions(vec!["France"], vec!["PL"]);
    assert_eq!(playlist.filtered_entries, vec![all[0].clone()]);
    assert_eq!(playlist.entries, all);
    assert_eq!(playlist.filtered_channel_ids(), vec!["1".to_string()]);
    assert_eq!(
        playlist.to_m3u(),
        format!("#EXTM3U\n{}", all[0].to_string())
    );
}

#[test]
fn a_part_is_got_by_its_key() {
    let text = "#EXTINF:-1 tvg-logo=\"l\" xui-id=\"s\" tvg-id=\"i\" group-title=\"g\" tvg-name=\"n\",The name\nhttp://u\nrest";
    assert_eq!(get(text, &EntryKey::Duration), Ok("-1".to_string()));
    assert_eq!(get(text, &EntryKey::XuiId), Ok("s".to_string()));
    assert_eq!(get(text, &EntryKey::TvgId), Ok("i".to_string()));
    assert_eq!(get(text, &EntryKey::TvgName), Ok("n".to_string()));
    assert_eq!(get(text, &EntryKey::TvgLogo), Ok("l".to_string()));
    assert_eq!(get(text, &EntryKey::GroupTitle), Ok("g".to_string()));
    assert_eq!(get(text, &EntryKey::Name), Ok("The name".to_string()));
    assert_eq!(get(text, &EntryKey::Url), Ok("http://u".to_string()));
    let partial = "#EXTINF:+3 tvg-id=\"i\",N\nu";
    assert_eq!(get(partial, &EntryKey::TvgId), Ok("i".to_string()));
    assert_eq!(get(partial, &EntryKey::Duration), Ok("+3".to_string()));
    assert_eq!(
        get(partial, &EntryKey::TvgName),
        Err(MalformedEntry { raw_text: partial.to_string() })
    );
    assert!(get("#EXTINF:x tvg-id=\"i\",N\nu", &EntryKey::TvgId).is_err());
    assert!(get("#EXTINF:1 tvg-id=\"i\",N", &EntryKey::TvgId).is_err());
}

#[test]
fn a_playlist_is_parsed_from_a_string() {
    let text = "#EXTM3U\n#EXTINF:-1 xui-id=\"1\" tvg-id=\"i\" tvg-name=\"n\" tvg-logo=\"l\" group-title=\"g\",N\nhttp://u";
    let playlist: Playlist = text.parse().unwrap();
    assert_eq!(playlist.entries.len(), 1);
    assert_eq!(playlist.entries[0].tvg_id, "i");
    assert!("#EXTM3U\nnonsense".parse::<Playlist>().is_err());
}
