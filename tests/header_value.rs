use regex::Regex;
use rmilter::header_value::{decode, find_encoded_word};

#[test]
fn plain_text_is_unchanged() {
    for input in ["", "Hello, world", "a = b? maybe ?= not", "Grüße =? aus Köln", "line\n=?x?q"] {
        assert_eq!(decode(input), input);
    }
}

#[test]
fn unknown_charset_keeps_whole_input() {
    let input = "Re: =?no-such-charset?Q?caf=C3=A9?= again";
    assert_eq!(decode(input), input);
}

#[test]
fn unknown_transfer_encoding_keeps_whole_input() {
    let input = "=?utf-8?X?abc?=";
    assert_eq!(decode(input), input);
}

#[test]
fn broken_base64_keeps_whole_input() {
    let input = "=?utf-8?B?@@@?=";
    assert_eq!(decode(input), input);
}

#[test]
fn latin1_quoted_printable_is_decoded() {
    assert_eq!(decode("=?iso-8859-1?q?K=E4se_und_Brot?="), "Käse und Brot");
}

#[test]
fn base64_lowercase_letter_is_decoded() {
    assert_eq!(decode("=?UTF-8?b?SGFsbG8=?="), "Hallo");
}

#[test]
fn encoded_words_on_separate_lines_are_decoded_each() {
    assert_eq!(decode("=?utf-8?Q?a?=\n=?utf-8?Q?b?="), "a\nb");
}

#[test]
fn words_on_one_line_are_taken_greedily() {
    // the search is greedy: the first word runs to the last "?=" of the line,
    // and its charset label then holds "?", which names no charset
    let input = "=?utf-8?Q?a?= =?utf-8?Q?b?=";
    assert_eq!(decode(input), input);
}

#[test]
fn text_before_a_word_with_multibyte_characters() {
    assert_eq!(decode("Grüße: =?utf-8?Q?M=C3=BCller?="), "Grüße: Müller");
}

/// The character positions of the first match of the regular expression that
/// describes an encoded word, as (start, charset end, encoding end, end).
fn regex_match(re: &Regex, text: &str, from_byte: usize) -> Option<(usize, usize, usize, usize)> {
    let caps = re.captures_at(text, from_byte)?;
    let chars = |byte: usize| text[..byte].chars().count();
    let start = caps.name("start")?.start();
    let charset_end = caps.name("charset")?.end();
    let encoding_end = caps.name("transfer_encoding")?.end();
    let end = caps.name("end")?.end();
    Some((chars(start), chars(charset_end), chars(encoding_end), chars(end)))
}

#[test]
fn search_agrees_with_the_regular_expression() {
    let re = Regex::new(
        r"(?P<start>=\?)(?P<charset>.*)\?(?P<transfer_encoding>.*)\?(?P<encoded_value>.*)(?P<end>\?=)",
    )
    .unwrap();
    let samples = [
        "=?utf-8?Q?abc?=",
        "x=?a?b?c?=y",
        "=?a?b?c?d?e?=",
        "=?a?b?c?= and =?d?e?f?= end",
        "==??=?a??=",
        "=?a??=",
        "=?a???=",
        "before\n=?a?b?c?=\nafter",
        "=?a?b\nc?=",
        "ü=?ä?ö?ß?=ü",
        "",
        "no words here",
        "?=?=?=?=",
    ];
    for text in samples {
        let chars: Vec<char> = text.chars().collect();
        let expected = regex_match(&re, text, 0);
        assert_eq!(find_encoded_word(&chars, 0), expected, "in {:?}", text);
    }
}
