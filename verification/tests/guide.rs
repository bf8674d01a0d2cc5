use sparrow_tv::epg::{escape_xml, Channel, Epg, Icon, Programme, RawProgramme};
use sparrow_tv::timestamp::{MalformedTimestamp, Timestamp};

fn ts(text: &str) -> Timestamp {
    Timestamp::parse(text).unwrap()
}

fn programme(start: &str, stop: &str, channel: &str, title: &str, desc: &str) -> Programme {
    Programme {
        start: ts(start),
        stop: ts(stop),
        channel: channel.to_string(),
        title: title.to_string(),
        desc: desc.to_string(),
    }
}

fn raw(start: &str, stop: &str) -> RawProgramme {
    RawProgramme {
        start: start.to_string(),
        stop: stop.to_string(),
        channel: "example.com".to_string(),
        title: "Test Programme".to_string(),
        desc: "Test Description".to_string(),
    }
}

fn channel(id: &str, name: &str, icon: Option<&str>) -> Channel {
    Channel {
        id: id.to_string(),
        display_name: name.to_string(),
        icon: icon.map(|src| Icon { src: src.to_string() }),
    }
}

fn rfc3339(t: &Timestamp) -> String {
    let zone = chrono::FixedOffset::east_opt(t.offset_seconds()).unwrap();
    chrono::DateTime::from_timestamp(t.unix_seconds(), t.subsec_nanos())
        .unwrap()
        .with_timezone(&zone)
        .to_rfc3339()
}

fn titles(programmes: &[Programme]) -> Vec<&str> {
    programmes.iter().map(|p| p.title.as_str()).collect()
}

#[test]
fn test_parse_programme_time() {
    let epg = Epg::from_parts(vec![], vec![raw("20241017130900 +0100", "20241017140000 +0100")])
        .unwrap();
    let programme = &epg.programmes[0];
    assert_eq!(rfc3339(&programme.start), "2024-10-17T13:09:00+01:00");
    assert_eq!(rfc3339(&programme.stop), "2024-10-17T14:00:00+01:00");
}

#[test]
fn a_timestamp_is_read_and_written_back() {
    let t = ts("20241017130900 +0100");
    assert_eq!(t.unix_seconds(), 1729166940);
    assert_eq!(t.subsec_nanos(), 0);
    assert_eq!(t.offset_seconds(), 3600);
    assert_eq!(t.to_guide_text(), "20241017130900 +0100");
    let west = ts("19991231235959 -0930");
    assert_eq!(west.offset_seconds(), -(9 * 3600 + 30 * 60));
    assert_eq!(west.unix_seconds(), 946718999);
    assert_eq!(west.to_guide_text(), "19991231235959 -0930");
    assert_eq!(ts("00000101000000 +0000").unix_seconds(), -62167219200);
    assert_eq!(ts("99991231235959 +0000").unix_seconds(), 253402300799);
    assert_eq!(ts("99991231235959 -2359").to_guide_text(), "99991231235959 -2359");
}

#[test]
fn a_leap_second_keeps_its_place() {
    let t = ts("20161231235960 +0000");
    assert_eq!(t.unix_seconds(), 1483228799);
    assert_eq!(t.subsec_nanos(), 1_000_000_000);
    assert_eq!(t.to_guide_text(), "20161231235960 +0000");
    assert!(ts("20161231235959 +0000").before(&t));
    assert!(t.before(&ts("20170101000000 +0000")));
}

#[test]
fn timestamps_off_the_pattern_are_rejected() {
    for text in [
        "",
        "20241017130900",
        "20241017130900+0100",
        "20241017130900  +0100",
        "20241017130900 +01:00",
        "20241017130900 0100",
        "2024101713090 +0100",
        " 20241017130900 +0100",
        "20241017130900 +0100 ",
        "2024-10-17T13:09:00+01:00",
        "2024101713090a +0100",
        "20241017130900 +01",
        "+2024101713090 +0100",
    ] {
        assert_eq!(
            Timestamp::parse(text),
            Err(MalformedTimestamp { text: text.to_string() })
        );
    }
}

#[test]
fn timestamps_that_name_no_time_are_rejected() {
    for text in [
        "20241317130900 +0100",
        "20240230130900 +0100",
        "20230229130900 +0100",
        "20241017250900 +0100",
        "20241017136000 +0100",
        "20241017130961 +0100",
        "20241017130900 +0160",
        "20241017130900 +2400",
        "20241000130900 +0100",
    ] {
        assert!(Timestamp::parse(text).is_err());
    }
    assert!(Timestamp::parse("20240229130900 +0100").is_ok());
}

#[test]
fn a_timestamp_is_made_from_representable_numbers_only() {
    assert!(Timestamp::new(0, 0, 0).is_some());
    assert!(Timestamp::new(-62_167_305_599, 0, 86_399).is_some());
    assert!(Timestamp::new(-62_167_305_600, 0, 0).is_none());
    assert!(Timestamp::new(253_402_387_198, 0, -86_399).is_some());
    assert!(Timestamp::new(253_402_387_199, 0, 0).is_none());
    assert!(Timestamp::new(0, 0, 86_400).is_none());
    assert!(Timestamp::new(0, 0, -86_400).is_none());
    assert!(Timestamp::new(0, 2_000_000_000, 0).is_none());
    assert!(Timestamp::new(0, 1_000_000_000, 0).is_none());
    assert!(Timestamp::new(59, 1_000_000_000, 0).is_some());
    assert!(Timestamp::new(-1, 1_999_999_999, 0).is_some());
    assert!(Timestamp::new(-2, 1_000_000_000, 0).is_none());
    assert_eq!(Timestamp::new(1729166940, 0, 3600).unwrap(), ts("20241017130900 +0100"));
    assert_eq!(
        Timestamp::new(1729166940, 0, 3600).unwrap().to_guide_text(),
        "20241017130900 +0100"
    );
}

#[test]
fn timestamps_are_ordered_by_instant() {
    let a = ts("20241017130900 +0100");
    let same_instant = ts("20241017120900 +0000");
    let later = ts("20241017120901 +0000");
    assert!(!a.before(&same_instant));
    assert!(!same_instant.before(&a));
    assert!(a.before(&later));
    assert!(!later.before(&a));
}

#[test]
fn the_first_unreadable_time_fails_the_guide() {
    let r = Epg::from_parts(
        vec![],
        vec![
            raw("20241017130900 +0100", "20241017140000 +0100"),
            raw("20241017140000 +0100", "soon"),
            raw("never", "20241017140000 +0100"),
        ],
    );
    assert_eq!(r.unwrap_err(), MalformedTimestamp { text: "soon".to_string() });
    let r = Epg::from_parts(vec![], vec![raw("bad start", "bad stop")]);
    assert_eq!(r.unwrap_err(), MalformedTimestamp { text: "bad start".to_string() });
    let epg = Epg::from_parts(vec![channel("a", "A", None)], vec![]).unwrap();
    assert_eq!(epg.channels.len(), 1);
    assert_eq!(epg.programmes.len(), 0);
}

#[test]
fn the_five_characters_are_escaped() {
    assert_eq!(escape_xml("a & b"), "a &amp; b");
    assert_eq!(escape_xml("<>\"'&"), "&lt;&gt;&quot;&apos;&amp;");
    assert_eq!(escape_xml("&amp;"), "&amp;amp;");
    assert_eq!(escape_xml(""), "");
    assert_eq!(escape_xml("plain åäö ‧ text"), "plain åäö ‧ text");
}

#[test]
fn the_guide_is_written_as_xml() {
    let epg = Epg {
        channels: vec![
            channel("abc.se", "ABC & Co", Some("http://logo/?a=1&b=2")),
            channel("def.se", "DEF", None),
        ],
        programmes: vec![programme(
            "20241017130900 +0100",
            "20241017140000 +0100",
            "abc.se",
            "News <live>",
            "Today's \"news\"",
        )],
    };
    let expected = "<?xml version=\"1.0\" encoding=\"utf-8\"?>\n\
<!DOCTYPE tv SYSTEM \"xmltv.dtd\">\n\
<tv generator-info-name=\"NXT\" generator-info-url=\"nxtplay.xyz\">\n\
<channel id=\"abc.se\">\n\
<display-name>ABC &amp; Co</display-name>\n\
<icon src=\"http://logo/?a=1&amp;b=2\"/>\n\
</channel>\n\
<channel id=\"def.se\">\n\
<display-name>DEF</display-name>\n\
</channel>\n\
<programme start=\"20241017130900 +0100\" stop=\"20241017140000 +0100\" channel=\"abc.se\">\n\
<title>News &lt;live&gt;</title>\n\
<desc>Today&apos;s &quot;news&quot;</desc>\n\
</programme>\n\
</tv>";
    assert_eq!(epg.to_xml(), expected);
    let empty = Epg { channels: vec![], programmes: vec![] };
    assert_eq!(
        empty.to_xml(),
        "<?xml version=\"1.0\" encoding=\"utf-8\"?>\n<!DOCTYPE tv SYSTEM \"xmltv.dtd\">\n<tv generator-info-name=\"NXT\" generator-info-url=\"nxtplay.xyz\">\n</tv>"
    );
}

#[test]
fn the_guide_is_narrowed_to_channels() {
    let mut epg = Epg {
        channels: vec![channel("a", "A", None), channel("b", "B", None), channel("c", "C", None)],
        programmes: vec![
            programme("20241017130000 +0000", "20241017140000 +0000", "b", "north", ""),
            programme("20241017130000 +0000", "20241017140000 +0000", "a", "south", ""),
            programme("20241017130000 +0000", "20241017140000 +0000", "x", "east", ""),
            programme("20241017130000 +0000", "20241017140000 +0000", "c", "west", ""),
        ],
    };
    epg.filter_channels(&["c".to_string(), "a".to_string(), "zzz".to_string()]);
    let ids: Vec<&str> = epg.channels.iter().map(|c| c.id.as_str()).collect();
    assert_eq!(ids, vec!["a", "c"]);
    assert_eq!(titles(&epg.programmes), vec!["south", "west"]);
    epg.filter_channels(&[]);
    assert_eq!(epg.channels.len(), 0);
    assert_eq!(epg.programmes.len(), 0);
}

#[test]
fn a_search_yields_what_has_not_ended_in_order_of_start() {
    let epg = Epg {
        channels: vec![],
        programmes: vec![
            programme("20241017150000 +0000", "20241017160000 +0000", "a", "Late news", ""),
            programme("20241017130000 +0000", "20241017140000 +0000", "a", "NEWS at one", ""),
            programme("20241017110000 +0000", "20241017120000 +0000", "a", "Old news", ""),
            programme("20241017140000 +0100", "20241017150000 +0100", "b", "Film", "with News inside"),
            programme("20241017130000 +0000", "20241017133000 +0000", "c", "Newsreel", ""),
            programme("20241017120000 +0000", "20241017170000 +0000", "c", "Sport", "nothing"),
        ],
    };
    let now = ts("20241017123000 +0000");
    let hits = epg.search("news", &now);
    assert_eq!(titles(&hits), vec!["NEWS at one", "Film", "Newsreel", "Late news"]);
    let hits = epg.search("NeWs", &now);
    assert_eq!(titles(&hits), vec!["NEWS at one", "Film", "Newsreel", "Late news"]);
    assert_eq!(titles(&epg.search("", &now)).len(), 5);
    assert_eq!(titles(&epg.search("absent", &now)).len(), 0);
}

#[test]
fn a_search_never_yields_what_ended_before_now() {
    let epg = Epg {
        channels: vec![],
        programmes: vec![
            programme("20241017110000 +0000", "20241017120000 +0000", "a", "one", ""),
            programme("20241017120000 +0000", "20241017130000 +0000", "a", "two", ""),
        ],
    };
    assert_eq!(titles(&epg.search("", &ts("20241017120000 +0000"))), vec!["one", "two"]);
    assert_eq!(titles(&epg.search("", &ts("20241017120001 +0000"))), vec!["two"]);
    assert_eq!(titles(&epg.search("", &ts("20241017130000 +0000"))), vec!["two"]);
    assert_eq!(titles(&epg.search("", &ts("20241017130001 +0000"))).len(), 0);
    let just_after = Timestamp::new(ts("20241017130000 +0000").unix_seconds(), 1, 0).unwrap();
    assert_eq!(titles(&epg.search("", &just_after)).len(), 0);
}

#[test]
fn marked_programmes_are_selected_without_a_query() {
    let epg = Epg {
        channels: vec![],
        programmes: vec![
            programme("20241017150000 +0000", "20241017160000 +0000", "a", "c", ""),
            programme("20241017130000 +0000", "20241017140000 +0000", "a", "a", ""),
            programme("20241017130000 +0000", "20241017140000 +0000", "a", "b", ""),
            programme("20241017100000 +0000", "20241017110000 +0000", "a", "gone", ""),
        ],
    };
    let now = ts("20241017120000 +0000");
    assert_eq!(titles(&epg.select_current(&vec![true, true, true, true], &now)), vec!["a", "b", "c"]);
    assert_eq!(titles(&epg.select_current(&vec![true, false, true, true], &now)), vec!["b", "c"]);
    assert_eq!(titles(&epg.select_current(&vec![true], &now)), vec!["c"]);
    assert_eq!(titles(&epg.select_current(&vec![], &now)).len(), 0);
}

#[test]
fn a_channel_is_looked_up_by_id_and_the_later_one_is_found() {
    let epg = Epg {
        channels: vec![channel("a", "first", None), channel("b", "B", None), channel("a", "second", None)],
        programmes: vec![],
    };
    let map = epg.channel_map();
    assert_eq!(map.get("a").unwrap().display_name, "second");
    assert_eq!(map.get("b").unwrap().display_name, "B");
    assert!(map.get("c").is_none());
    assert!(map.get("").is_none());
}
