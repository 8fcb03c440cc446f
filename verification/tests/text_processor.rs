use parallax_gif::text_processor::{clean_prompt, TextProcessor};

#[test]
fn test_enforce_ascii() {
    let test_cases = vec![
        ("Café", "Cafe"),
        ("20°C", "20 degC"),
        ("→", "->"),
        ("±", "+/-"),
        ("÷", "/"),
        ("°", " deg"),
        ("©", "(c)"),
        ("™", "(tm)"),
        ("→", "->"),
        ("←", "<-"),
        ("↑", "^"),
        ("↓", "v"),
    ];

    for (input, expected) in test_cases {
        assert_eq!(TextProcessor::enforce_ascii(input), expected);
    }
}

#[test]
fn test_remove_incomplete_last_sentence() {
    assert_eq!(
        TextProcessor::remove_incomplete_last_sentence("First sentence. Second sentence"),
        "First sentence."
    );
    assert_eq!(
        TextProcessor::remove_incomplete_last_sentence("Complete sentence."),
        "Complete sentence."
    );
    assert_eq!(
        TextProcessor::remove_incomplete_last_sentence("Incomplete"),
        ""
    );
}

#[test]
fn enforce_ascii_keeps_ascii_and_drops_the_rest() {
    assert_eq!(TextProcessor::enforce_ascii("plain text, 123!"), "plain text, 123!");
    assert_eq!(TextProcessor::enforce_ascii("a\u{4e2d}b\u{1f600}c"), "abc");
    assert_eq!(TextProcessor::enforce_ascii(""), "");
}

#[test]
fn enforce_ascii_replaces_every_listed_character() {
    let cases = vec![
        ("«»", "\"\""),
        ("`´", "''"),
        ("—–−‒―", "-----"),
        ("…", "..."),
        ("áàâäãåā", "aaaaaaa"),
        ("æ", "ae"),
        ("çč", "cc"),
        ("éèêëē", "eeeee"),
        ("íìîïī", "iiiii"),
        ("ñ", "n"),
        ("óòôöõøō", "ooooooo"),
        ("œ", "oe"),
        ("úùûüū", "uuuuu"),
        ("ýÿ", "yy"),
        ("ß", "ss"),
        ("€£¥₹¢₩", "EURGBPJPYINRcKRW"),
        ("©®™", "(c)(r)(tm)"),
        ("×", "x"),
        ("•●‣·", "****"),
    ];
    for (input, expected) in cases {
        assert_eq!(TextProcessor::enforce_ascii(input), expected);
    }
}

#[test]
fn incomplete_sentence_is_cut_after_the_last_full_stop() {
    assert_eq!(
        TextProcessor::remove_incomplete_last_sentence("One. Two! Three"),
        "One."
    );
    assert_eq!(TextProcessor::remove_incomplete_last_sentence("Really?  \n\t "), "Really?");
    assert_eq!(TextProcessor::remove_incomplete_last_sentence("Stop!"), "Stop!");
    assert_eq!(TextProcessor::remove_incomplete_last_sentence("a.b.c \u{a0}\u{3000}"), "a.b.");
}

#[test]
fn text_of_white_space_comes_to_nothing() {
    assert_eq!(TextProcessor::remove_incomplete_last_sentence(""), "");
    assert_eq!(TextProcessor::remove_incomplete_last_sentence(" \n\u{2003}"), "");
    assert_eq!(TextProcessor::remove_incomplete_last_sentence("no stop here?x"), "");
}

#[test]
fn trimming_agrees_with_the_standard_library() {
    for code in 0u32..0x3100 {
        if let Some(c) = char::from_u32(code) {
            let text = format!("Done.{}", c);
            let expected = if c.is_whitespace() || c == '.' || c == '!' || c == '?' {
                text.trim_end().to_string()
            } else {
                "Done.".to_string()
            };
            assert_eq!(TextProcessor::remove_incomplete_last_sentence(&text), expected);
        }
    }
}

#[test]
fn a_reply_is_trimmed_put_in_ascii_and_cut_to_whole_sentences() {
    assert_eq!(
        clean_prompt("  \n Layer 1: caf\u{e9} \u{2014} 20\u{b0}. Layer 2: unfinish \t"),
        "Layer 1: cafe - 20 deg."
    );
    assert_eq!(clean_prompt("All done!"), "All done!");
    assert_eq!(clean_prompt("\u{a0}\u{3000} "), "");
    assert_eq!(clean_prompt(""), "");
    assert_eq!(clean_prompt("no stop"), "");
    // the ellipsis becomes three full stops, which end the text
    assert_eq!(clean_prompt(" and so on\u{2026} "), "and so on...");
}

#[test]
fn cleaning_agrees_with_the_three_steps_one_after_the_other() {
    let replies = [
        " A. B ", "\tx\u{2192}y. z", "\u{85}Quiet\u{2026}\u{85}", "\u{4e2d}.", " . ", "a\u{a0}.\u{a0}b",
    ];
    for reply in replies {
        let ascii = TextProcessor::enforce_ascii(reply.trim());
        assert_eq!(clean_prompt(reply), TextProcessor::remove_incomplete_last_sentence(&ascii));
    }
}
