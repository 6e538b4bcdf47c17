use capture_replay::classifier::chars_of;
use capture_replay::classifier::classify;
use capture_replay::classifier::find;
use capture_replay::classifier::MessageCategory;
use capture_replay::classifier::RuleTable;

fn chars(text: &str) -> Vec<char> {
    text.chars().collect()
}

#[test]
fn chars_of_text() {
    assert_eq!(chars_of(""), Vec::<char>::new());
    assert_eq!(chars_of("a[\u{e9}\u{1f600}"), vec!['a', '[', '\u{e9}', '\u{1f600}']);
}

#[test]
fn find_looks_at_every_offset() {
    assert!(find(&chars("abcabd"), &chars("abd")));
    assert!(find(&chars("abcabd"), &chars("abc")));
    assert!(find(&chars("abcabd"), &chars("d")));
    assert!(find(&chars("aab"), &chars("ab")));
    assert!(!find(&chars("abcabd"), &chars("abe")));
    assert!(!find(&chars("ab"), &chars("abc")));
    assert!(find(&chars("ab"), &chars("")));
    assert!(find(&chars(""), &chars("")));
    assert!(!find(&chars(""), &chars("a")));
}

#[test]
fn auth_server_marker() {
    assert_eq!(classify("[53-01-04]"), MessageCategory::AuthServer);
    assert_eq!(classify("0001 [53-01-00-00] handshake.bin"), MessageCategory::AuthServer);
}

#[test]
fn continuation_marker_comes_first() {
    assert_eq!(classify("[53-01-04] 1of2"), MessageCategory::Ignored);
    assert_eq!(classify("of[53-01-"), MessageCategory::Ignored);
    assert_eq!(classify("[53-04-00-01] (2 of 3)"), MessageCategory::Ignored);
    assert_eq!(classify("[27] of"), MessageCategory::Ignored);
    assert_eq!(classify("of"), MessageCategory::Ignored);
}

#[test]
fn auth_server_comes_before_the_world_markers() {
    assert_eq!(classify("[53-01-00][53-04-00-01][27]"), MessageCategory::AuthServer);
    assert_eq!(classify("[53-04-00-16][53-01-"), MessageCategory::AuthServer);
}

#[test]
fn world_server_marker() {
    assert_eq!(classify("[53-04-00-01]"), MessageCategory::WorldServer);
    assert_eq!(classify("[53-04-00-05] [78-01]"), MessageCategory::WorldServer);
    assert_eq!(classify("[53-04-00-01][53-02-"), MessageCategory::WorldServer);
}

#[test]
fn world_server_exclusions() {
    for code in [
        "[53-04-00-16]", "[e6-00]", "[6b-03]", "[16-04]", "[49-04]", "[ad-04]", "[1c-05]",
        "[230]", "[875]", "[1046]", "[1097]", "[1197]", "[1308]",
    ] {
        let tag = format!("[53-04-00-05] {}", code);
        assert_eq!(classify(&tag), MessageCategory::Ignored);
    }
    assert_eq!(classify("[53-04-00-16]"), MessageCategory::Ignored);
    assert_eq!(classify("[53-04-00-05] [231]"), MessageCategory::WorldServer);
}

#[test]
fn excluded_world_server_tag_can_still_be_world_client() {
    assert_eq!(classify("[53-04-00-16] [27]"), MessageCategory::WorldClient);
    assert_eq!(classify("[53-04-00-05] [875] [53-02-00]"), MessageCategory::WorldClient);
    assert_eq!(classify("[53-04-00-05] [875] [24]"), MessageCategory::WorldClient);
}

#[test]
fn world_client_markers() {
    assert_eq!(classify("[53-02-00-00]"), MessageCategory::WorldClient);
    assert_eq!(classify("[53-05-00-02]"), MessageCategory::WorldClient);
    assert_eq!(classify("[53-05-00-0c] [c4-01]"), MessageCategory::WorldClient);
    assert_eq!(classify("[24] (1234)"), MessageCategory::WorldClient);
    assert_eq!(classify("[24]"), MessageCategory::WorldClient);
    assert_eq!(classify("[27]"), MessageCategory::WorldClient);
    assert_eq!(classify("[27] (2365)"), MessageCategory::WorldClient);
}

#[test]
fn world_client_exclusions() {
    for code in [
        "[53-05-00-00]", "[53-05-00-15]", "[53-05-00-31]", "[76-00]", "[e6-00]", "[ff-00]",
        "[a1-01]", "[7f-02]", "[a3-02]", "[cc-02]", "[35-03]", "[36-03]", "[4d-03]", "[6d-03]",
        "[91-03]", "[1a-05]", "[e6-05]", "[16-06]", "[1c-06]", "[6f-06]", "[70-06]", "[118]",
        "[230]", "[255]", "[417]", "[639]", "[675]", "[716]", "[821]", "[822]", "[845]", "[877]",
        "[913]", "[1306]", "[1510]", "[1558]", "[1564]", "[1647]", "[1648]",
    ] {
        let tag = format!("[53-05-00-0c] {}", code);
        assert_eq!(classify(&tag), MessageCategory::Ignored);
    }
    assert_eq!(classify("[53-05-00-0c] [1649]"), MessageCategory::WorldClient);
    assert_eq!(classify("[53-05-00-00] [53-02-"), MessageCategory::WorldClient);
    assert_eq!(classify("[53-05-00-0c] [875]"), MessageCategory::WorldClient);
}

#[test]
fn construction_exclusions() {
    for code in [
        "(2365)", "(4930)", "(5635)", "(5958)", "(6007)", "(6010)", "(6209)", "(6267)", "(6289)",
        "(6319)", "(7282)", "(8304)",
    ] {
        let tag = format!("[24] {}", code);
        assert_eq!(classify(&tag), MessageCategory::Ignored);
    }
    assert_eq!(classify("[24] (2366)"), MessageCategory::WorldClient);
    assert_eq!(classify("[24] (2365) [27]"), MessageCategory::WorldClient);
    assert_eq!(classify("[24] [230]"), MessageCategory::WorldClient);
}

#[test]
fn unmarked_tags_are_ignored() {
    assert_eq!(classify(""), MessageCategory::Ignored);
    assert_eq!(classify("readme.txt"), MessageCategory::Ignored);
    assert_eq!(classify("[53-03-00-00]"), MessageCategory::Ignored);
    assert_eq!(classify("[53-01]"), MessageCategory::Ignored);
    assert_eq!(classify("[25]"), MessageCategory::Ignored);
}

#[test]
fn empty_table_excludes_nothing() {
    let rules = RuleTable::new();
    assert_eq!(rules.classify("[53-04-00-16]"), MessageCategory::WorldServer);
    assert_eq!(rules.classify("[53-05-00-00]"), MessageCategory::WorldClient);
    assert_eq!(rules.classify("[24] (2365)"), MessageCategory::WorldClient);
    assert_eq!(rules.classify("[53-01-04] 1of2"), MessageCategory::Ignored);
}

#[test]
fn table_of_ones_own() {
    let mut rules = RuleTable::new();
    rules.exclude_world_server("[aa]");
    rules.exclude_world_client("[bb]");
    rules.exclude_construction("(7)");
    assert_eq!(rules.classify("[53-04-00-01] [aa]"), MessageCategory::Ignored);
    assert_eq!(rules.classify("[53-04-00-01] [bb]"), MessageCategory::WorldServer);
    assert_eq!(rules.classify("[53-05-00-01] [bb]"), MessageCategory::Ignored);
    assert_eq!(rules.classify("[53-05-00-01] [aa]"), MessageCategory::WorldClient);
    assert_eq!(rules.classify("[24] (7)"), MessageCategory::Ignored);
    assert_eq!(rules.classify("[24] [aa] [bb]"), MessageCategory::WorldClient);
    assert_eq!(rules.classify("[53-04-00-16]"), MessageCategory::WorldServer);
}

#[test]
fn standard_table_is_what_classify_uses() {
    let rules = RuleTable::standard();
    for tag in ["[53-01-04]", "[53-04-00-16]", "[53-04-00-01]", "[53-05-00-15]", "[24] (8304)", "[27]", "x of y", ""] {
        assert_eq!(rules.classify(tag), classify(tag));
    }
}
