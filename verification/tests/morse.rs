use text_transform::error::PipelineError;
use text_transform::morse::{from_morse, to_morse, CodeTable};

const ENGLISH: &str = r#"{
    "A": ".-", "B": "-...", "C": "-.-.", "D": "-..", "E": ".", "F": "..-.",
    "G": "--.", "H": "....", "I": "..", "J": ".---", "K": "-.-", "L": ".-..",
    "M": "--", "N": "-.", "O": "---", "P": ".--.", "Q": "--.-", "R": ".-.",
    "S": "...", "T": "-", "U": "..-", "V": "...-", "W": ".--", "X": "-..-",
    "Y": "-.--", "Z": "--..",
    "0": "-----", "1": ".----", "2": "..---", "3": "...--", "4": "....-",
    "5": ".....", "6": "-....", "7": "--...", "8": "---..", "9": "----."
}"#;

fn english() -> CodeTable {
    CodeTable::parse(ENGLISH).unwrap()
}

#[test]
fn sos_in_morse() {
    assert_eq!(to_morse("sos", ENGLISH.to_string()), Ok("... --- ...".to_string()));
}

#[test]
fn to_morse_serves_both_cases() {
    assert_eq!(to_morse("SoS", ENGLISH.to_string()), to_morse("SOS", ENGLISH.to_string()));
    assert_eq!(to_morse("abc", ENGLISH.to_string()), Ok(".- -... -.-.".to_string()));
}

#[test]
fn space_becomes_the_word_separator() {
    assert_eq!(to_morse("a b", ENGLISH.to_string()), Ok(".- / -...".to_string()));
    assert_eq!(to_morse(" ", ENGLISH.to_string()), Ok("/".to_string()));
    assert_eq!(to_morse("  ", ENGLISH.to_string()), Ok("/ /".to_string()));
}

#[test]
fn unknown_characters_become_question_marks() {
    assert_eq!(to_morse("a!b", ENGLISH.to_string()), Ok(".- ? -...".to_string()));
    assert_eq!(to_morse("é", ENGLISH.to_string()), Ok("?".to_string()));
    assert_eq!(to_morse("\t", ENGLISH.to_string()), Ok("?".to_string()));
    assert_eq!(to_morse("a1", ENGLISH.to_string()), Ok(".- .----".to_string()));
}

#[test]
fn empty_text_in_morse_is_empty() {
    assert_eq!(to_morse("", ENGLISH.to_string()), Ok(String::new()));
}

#[test]
fn uppercase_may_make_more_characters() {
    let table = r#"{"S": "..."}"#;
    assert_eq!(to_morse("ß", table.to_string()), Ok("... ...".to_string()));
}

#[test]
fn to_morse_fails_on_a_malformed_table() {
    for data in ["", "{", "not json", "[]", "42", "\"text\"", "null", r#"{"A": 1}"#, r#"{"A": {"B": "."}}"#, r#"{"A": null}"#, r#"{"A": ".-"} x"#] {
        assert_eq!(to_morse("sos", data.to_string()), Err(PipelineError::TableLoad), "data {:?}", data);
        assert_eq!(from_morse("...", data.to_string()), Err(PipelineError::TableLoad), "data {:?}", data);
    }
}

#[test]
fn an_empty_table_is_a_table() {
    assert_eq!(to_morse("ab c", "{}".to_string()), Ok("? ? / ?".to_string()));
    assert_eq!(from_morse(".- -...", "{}".to_string()), Ok(String::new()));
}

#[test]
fn morse_reads_back_as_spaced_keys() {
    assert_eq!(from_morse("... --- ...", ENGLISH.to_string()), Ok("S O S".to_string()));
    assert_eq!(from_morse("  ...\t---\n... ", ENGLISH.to_string()), Ok("S O S".to_string()));
    assert_eq!(from_morse("", ENGLISH.to_string()), Ok(String::new()));
}

#[test]
fn the_separator_reads_back_as_nothing() {
    assert_eq!(from_morse(".- / -...", ENGLISH.to_string()), Ok("A B".to_string()));
    assert_eq!(from_morse("/", ENGLISH.to_string()), Ok(String::new()));
    assert_eq!(from_morse("? xyz ..--..--", ENGLISH.to_string()), Ok(String::new()));
}

#[test]
fn a_shared_code_reads_back_as_all_its_keys() {
    let data = r#"{"B": ".-", "A": ".-", "C": "-"}"#;
    assert_eq!(from_morse(".-", data.to_string()), Ok("A B".to_string()));
    assert_eq!(from_morse("- .- -", data.to_string()), Ok("C A B C".to_string()));
}

#[test]
fn long_keys_are_found_by_their_code_only() {
    let data = r#"{"AB": ".-", "": "-"}"#;
    assert_eq!(from_morse(".- -", data.to_string()), Ok("AB ".to_string()));
    assert_eq!(to_morse("ab", data.to_string()), Ok("? ?".to_string()));
}

#[test]
fn a_repeated_key_keeps_its_last_code() {
    let data = r#"{"A": ".-", "A": "-"}"#;
    let table = CodeTable::parse(data).unwrap();
    assert_eq!(table.len(), 1);
    assert_eq!(table.code("A"), Some("-".to_string()));
    assert_eq!(to_morse("a", data.to_string()), Ok("-".to_string()));
}

#[test]
fn parse_reads_every_entry() {
    let table = english();
    assert_eq!(table.len(), 36);
    assert_eq!(table.code("S"), Some("...".to_string()));
    assert_eq!(table.code("0"), Some("-----".to_string()));
    assert_eq!(table.code("s"), None);
    assert_eq!(table.code(""), None);
    assert_eq!(table.code("SO"), None);
}

#[test]
fn parse_unescapes_json_strings() {
    let table = CodeTable::parse(r#"{"A": ".-", "\"": ".-..-."}"#).unwrap();
    assert_eq!(table.code("A"), Some(".-".to_string()));
    assert_eq!(table.code("\""), Some(".-..-.".to_string()));
}

#[test]
fn parse_fails_with_table_load() {
    assert!(matches!(CodeTable::parse("{"), Err(PipelineError::TableLoad)));
    assert!(matches!(CodeTable::parse(r#"{"A": 1}"#), Err(PipelineError::TableLoad)));
    assert!(matches!(CodeTable::parse(r#"["A"]"#), Err(PipelineError::TableLoad)));
}

#[test]
fn a_new_table_is_empty() {
    let table = CodeTable::new();
    assert_eq!(table.len(), 0);
    assert_eq!(table.code("A"), None);
    assert_eq!(table.encode("a b"), "? / ?");
    assert_eq!(table.decode(".-"), "");
}

#[test]
fn insert_adds_and_replaces() {
    let mut table = CodeTable::new();
    table.insert("A", ".-");
    table.insert("B", "-...");
    assert_eq!(table.len(), 2);
    assert_eq!(table.code("A"), Some(".-".to_string()));
    assert_eq!(table.code("B"), Some("-...".to_string()));
    table.insert("A", "--");
    assert_eq!(table.len(), 2);
    assert_eq!(table.code("A"), Some("--".to_string()));
    assert_eq!(table.code("B"), Some("-...".to_string()));
    assert_eq!(table.encode("AB"), "-- -...");
}

#[test]
fn a_replaced_key_keeps_its_place() {
    let mut table = CodeTable::new();
    table.insert("X", ".");
    table.insert("Y", ".");
    table.insert("X", ".");
    assert_eq!(table.decode("."), "X Y");
}

#[test]
fn encode_takes_the_text_as_it_is() {
    let table = english();
    assert_eq!(table.encode("SOS"), "... --- ...");
    assert_eq!(table.encode("sos"), "? ? ?");
    assert_eq!(table.encode("S S"), "... / ...");
}

#[test]
fn decode_puts_out_keys_in_table_order() {
    let mut table = CodeTable::new();
    table.insert("Z", ".-");
    table.insert("A", ".-");
    table.insert("M", "-");
    assert_eq!(table.decode(".- -"), "Z A M");
    assert_eq!(table.decode_text(".- -"), "ZM");
}

#[test]
fn decode_text_restores_spaces() {
    let table = english();
    assert_eq!(table.decode_text("... --- ... / .... . .-.. .--."), "SOS HELP");
    assert_eq!(table.decode_text("/"), " ");
    assert_eq!(table.decode_text("/ /"), "  ");
    assert_eq!(table.decode_text(""), "");
    assert_eq!(table.decode_text("... ? ---"), "SO");
    assert_eq!(table.decode_text("// ."), "E");
}

#[test]
fn morse_survives_the_round_trip() {
    let table = english();
    for s in ["sos", "Hello World", "the quick brown fox 0123456789", " a  b ", "", "   "] {
        let coded = to_morse(s, ENGLISH.to_string()).unwrap();
        let back = table.decode_text(&coded);
        assert_eq!(back, s.to_uppercase(), "text {:?}", s);
        assert_eq!(back.to_uppercase(), s.to_uppercase());
    }
}

fn pairs(entries: &[(&str, &str)]) -> Vec<(String, String)> {
    entries.iter().map(|(k, c)| (k.to_string(), c.to_string())).collect()
}

#[test]
fn from_pairs_enters_the_pairs_in_order() {
    let table = CodeTable::from_pairs(&pairs(&[("Z", ".-"), ("A", ".-"), ("M", "-")]));
    assert_eq!(table.len(), 3);
    assert_eq!(table.decode(".-"), "Z A");
    assert_eq!(table.encode("MAZ"), "- .- .-");
    assert_eq!(CodeTable::from_pairs(&Vec::new()).len(), 0);
}

#[test]
fn from_pairs_lets_the_last_code_win() {
    let table = CodeTable::from_pairs(&pairs(&[("A", "."), ("B", "-"), ("A", "..")]));
    assert_eq!(table.len(), 2);
    assert_eq!(table.code("A"), Some("..".to_string()));
    assert_eq!(table.decode(".. -"), "A B");
    assert_eq!(table.decode("."), "");
}

#[test]
fn the_english_table_is_unambiguous_and_proper() {
    let table = english();
    assert!(table.is_unambiguous());
    assert!(table.has_proper_codes());
    assert!(CodeTable::new().is_unambiguous());
    assert!(CodeTable::new().has_proper_codes());
}

#[test]
fn a_shared_code_makes_a_table_ambiguous() {
    let table = CodeTable::from_pairs(&pairs(&[("A", ".-"), ("B", "-"), ("C", ".-")]));
    assert!(!table.is_unambiguous());
    assert!(table.has_proper_codes());
    let table = CodeTable::from_pairs(&pairs(&[("A", ".-"), ("B", ".-")]));
    assert!(!table.is_unambiguous());
    let table = CodeTable::from_pairs(&pairs(&[("A", ".-"), ("B", "-.")]));
    assert!(table.is_unambiguous());
}

#[test]
fn codes_of_other_characters_are_not_proper() {
    for code in ["", "/", "?", ". -", ".-x", "·−", " "] {
        let table = CodeTable::from_pairs(&pairs(&[("A", ".-"), ("B", code)]));
        assert!(!table.has_proper_codes(), "code {:?}", code);
    }
    let table = CodeTable::from_pairs(&pairs(&[("A", "."), ("B", "-"), ("C", "-.-.--")]));
    assert!(table.has_proper_codes());
}

#[test]
fn a_table_may_give_the_separator_as_a_code() {
    let table = CodeTable::from_pairs(&pairs(&[("X", "/"), ("Y", "?")]));
    assert_eq!(table.decode("/ ?"), "X Y");
    assert_eq!(table.decode_text("/ ?"), " Y");
    assert_eq!(table.encode("X Y!"), "/ / ? ?");
}

#[test]
fn parse_gives_the_keys_in_ascending_order() {
    let table = CodeTable::parse(r#"{"b": ".", "a": ".", "C": ".", "B": "."}"#).unwrap();
    assert_eq!(table.decode("."), "B C a b");
    assert_eq!(table.decode_text("."), "B");
}

#[test]
fn a_small_key_is_out_of_reach_for_to_morse() {
    let data = r#"{"a": ".-"}"#;
    assert_eq!(to_morse("a", data.to_string()), Ok("?".to_string()));
    let table = CodeTable::parse(data).unwrap();
    assert_eq!(table.encode("a"), ".-");
    assert_eq!(table.decode_text("?"), "");
}
