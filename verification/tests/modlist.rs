use ue4ss_installer::modlist::enable_logicmods;
use ue4ss_installer::text::{matches_at, replace_all};

fn enabled(text: &str) -> String {
    String::from_utf8(enable_logicmods(text.as_bytes())).unwrap()
}

#[test]
fn the_disabled_entry_is_enabled() {
    assert_eq!(enabled("BPModLoaderMod : 0"), "BPModLoaderMod : 1");
}

#[test]
fn a_single_line_changes_only_in_its_flag() {
    let before = "BPModLoaderMod : 0\n";
    let after = enabled(before);
    assert!(after.contains("BPModLoaderMod : 1"));
    assert_eq!(after.len(), before.len());
    let differing: Vec<usize> = (0..before.len())
        .filter(|&i| before.as_bytes()[i] != after.as_bytes()[i])
        .collect();
    assert_eq!(differing, vec![17]);
    assert_eq!(after.as_bytes()[17], b'1');
}

#[test]
fn a_file_without_the_entry_is_left_as_it_is() {
    let before = "CheatManagerEnablerMod : 1\nConsoleCommandsMod : 1\n; BPModLoaderMod\n";
    assert_eq!(enabled(before), before);
}

#[test]
fn an_empty_file_is_left_empty() {
    assert_eq!(enabled(""), "");
}

#[test]
fn an_enabled_entry_is_left_enabled() {
    let before = "BPModLoaderMod : 1\r\n";
    assert_eq!(enabled(before), before);
}

#[test]
fn the_entry_is_found_among_others() {
    let before = "CheatManagerEnablerMod : 1\r\nActorDumperMod : 0\r\nBPModLoaderMod : 0\r\nBPML_GenericFunctions : 1\r\n\r\n; Built-in keybinds, do not move up!\r\nKeybinds : 1\r\n";
    let after = "CheatManagerEnablerMod : 1\r\nActorDumperMod : 0\r\nBPModLoaderMod : 1\r\nBPML_GenericFunctions : 1\r\n\r\n; Built-in keybinds, do not move up!\r\nKeybinds : 1\r\n";
    assert_eq!(enabled(before), after);
}

#[test]
fn every_entry_is_enabled() {
    assert_eq!(
        enabled("BPModLoaderMod : 0BPModLoaderMod : 0\nxBPModLoaderMod : 0"),
        "BPModLoaderMod : 1BPModLoaderMod : 1\nxBPModLoaderMod : 1"
    );
}

#[test]
fn a_near_miss_is_not_an_entry() {
    for before in [
        "BPModLoaderMod: 0",
        "BPModLoaderMod :0",
        "BPModLoaderMod  : 0",
        "bpmodloadermod : 0",
        "BPModLoaderMod : ",
        "BPModLoaderMod : 2",
        "PModLoaderMod : 0",
    ] {
        assert_eq!(enabled(before), before);
    }
}

#[test]
fn enabling_twice_is_enabling_once() {
    for before in ["BPModLoaderMod : 0", "a\nBPModLoaderMod : 0\nBPModLoaderMod : 00\n", "nothing"] {
        let once = enabled(before);
        assert_eq!(enabled(&once), once);
    }
}

#[test]
fn enabling_agrees_with_the_replacement_of_strings() {
    for before in [
        "",
        "BPModLoaderMod : 0",
        "BPModLoaderMod : 0\n",
        "BBPModLoaderMod : 0",
        "BPModLoaderMod : BPModLoaderMod : 0",
        "BPModLoaderMod : 0 : 0",
        "x\ny\nBPModLoaderMod : 0\r\nBPModLoaderMod : 1\r\nBPModLoaderMod : 0",
        "BPModLoaderMod : \u{e9}0",
    ] {
        assert_eq!(enabled(before), before.replace("BPModLoaderMod : 0", "BPModLoaderMod : 1"));
    }
}

#[test]
fn replacement_goes_from_the_left_and_skips_what_it_replaced() {
    assert_eq!(replace_all(b"aaa", b"aa", b"b"), b"ba".to_vec());
    assert_eq!(replace_all(b"aaaa", b"aa", b"b"), b"bb".to_vec());
    assert_eq!(replace_all(b"abcabc", b"bc", b""), b"aa".to_vec());
    assert_eq!(replace_all(b"abc", b"abcd", b"x"), b"abc".to_vec());
    assert_eq!(replace_all(b"", b"a", b"x"), b"".to_vec());
    assert_eq!(replace_all(b"a-b-c", b"-", b"--"), b"a--b--c".to_vec());
}

#[test]
fn a_pattern_matches_only_where_all_of_it_stands() {
    assert!(matches_at(b"hello", b"ell", 1));
    assert!(!matches_at(b"hello", b"ell", 0));
    assert!(matches_at(b"hello", b"", 5));
    assert!(!matches_at(b"hello", b"", 6));
    assert!(!matches_at(b"hello", b"lo!", 3));
    assert!(matches_at(b"hello", b"hello", 0));
    assert!(!matches_at(b"hello", b"o", usize::MAX));
}
