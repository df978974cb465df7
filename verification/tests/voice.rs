use agent_platform_desktop::assistant_gate::{addressed, is_ghost};
use agent_platform_desktop::assistant_voice::{edge_voice, speech_text, take_sentence};

#[test]
fn speech_text_strips_markdown() {
    assert_eq!(speech_text("**Systems** are `nominal`."), "Systems are nominal.");
    assert_eq!(speech_text("# Status\n- web: *ok*\n- net: ok"), "Status web: ok net: ok");
    assert_eq!(speech_text("See [the docs](https://example.com) now."), "See the docs now.");
    assert_eq!(
        speech_text("Run this:\n```rust\nfn main() {}\n```\nDone."),
        "Run this: Code omitted. Done."
    );
}

#[test]
fn address_matching_survives_how_whisper_spells_it() {
    assert_eq!(addressed("E.V., status?").as_deref(), Some("status?"));
    assert_eq!(addressed("hey EV run the build").as_deref(), Some("run the build"));
    assert_eq!(addressed("Evie: what broke").as_deref(), Some("what broke"));
    assert_eq!(addressed("EV").as_deref(), Some(""));
    assert_eq!(addressed("what's the weather"), None);
    assert_eq!(addressed("tell Eve I said hi"), None);
    assert_eq!(addressed(""), None);
}

#[test]
fn sentences_split_on_terminators_but_not_inside_words() {
    let mut buf = "Shields are at 82.5 percent, boss. Next up.".to_string();
    assert_eq!(
        take_sentence(&mut buf, false).as_deref(),
        Some("Shields are at 82.5 percent, boss.")
    );
    assert_eq!(buf, "Next up.");
    assert_eq!(take_sentence(&mut buf, false), None);
    assert_eq!(buf, "Next up.");
}

#[test]
fn first_chunk_breaks_early_so_the_voice_starts_sooner() {
    let mut buf = "Shields are at 82.5 percent, boss. Next up.".to_string();
    assert_eq!(take_sentence(&mut buf, true).as_deref(), Some("Shields are at 82.5 percent,"));
    assert_eq!(take_sentence(&mut buf, false), None);
    assert_eq!(buf, "boss. Next up.");
}

#[test]
fn whispers_stock_captions_are_ghosts_and_real_speech_is_not() {
    assert!(is_ghost("Thank you."));
    assert!(is_ghost(" you "));
    assert!(is_ghost("Thanks for watching!"));
    assert!(!is_ghost("thank you for the summary, now do the other one"));
}

#[test]
fn a_short_voice_name_becomes_the_full_edge_name() {
    assert_eq!(
        edge_voice("en-GB-SoniaNeural"),
        "Microsoft Server Speech Text to Speech Voice (en-GB, SoniaNeural)"
    );
    assert_eq!(edge_voice(""), "Microsoft Server Speech Text to Speech Voice (en-US, AriaNeural)");
}

#[test]
fn a_split_sentence_and_its_remainder_hold_the_whole_buffer() {
    let original = "One two three four five six. And the rest of it.";
    let mut buf = original.to_string();
    let first = take_sentence(&mut buf, false).unwrap();
    assert_eq!(format!("{first} {buf}"), original);
}

#[test]
fn a_voice_id_missing_either_half_falls_back_to_the_default() {
    let default = "Microsoft Server Speech Text to Speech Voice (en-US, AriaNeural)";
    assert_eq!(edge_voice("en-US-"), default);
    assert_eq!(edge_voice("-Aria"), default);
    assert_eq!(edge_voice("Aria"), default);
    assert_eq!(edge_voice(""), default);
    assert_eq!(edge_voice("en-GB-SoniaNeural"), "Microsoft Server Speech Text to Speech Voice (en-GB, SoniaNeural)");
}

#[test]
fn spoken_text_carries_no_markup() {
    let said = speech_text("**Bold** and _slanted_ `code` ~~gone~~ [a link](http://x.y/z) ![pic](p.png)\n- item [one]");
    assert!(!said.contains(['*', '_', '`', '~', '[', ']']), "got: {said:?}");
    assert_eq!(said, "Bold and slanted code gone a link pic item one");
}
