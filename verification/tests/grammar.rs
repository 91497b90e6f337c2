use nvee::model::field;
use nvee::model::ident;
use nvee::model::key;
use nvee::model::value;
use nvee::parser::IntError;
use nvee::{Field, Ident, Key, Parse, Table, Value};

fn segments(key: &Key) -> Vec<String> {
    let mut it = key.segments();
    let mut out = Vec::new();
    while let Some(id) = it.next() {
        out.push(id.as_str().to_owned());
    }
    out
}

fn parse_key(s: &str) -> Key<'_> {
    match Key::parse_str(s) {
        Ok(key) => key,
        Err(e) => panic!("parsing '{}' should not fail: {:?}", s, e),
    }
}

fn parse_field(s: &str) -> Field<'_> {
    match Field::parse_str(s) {
        Ok(field) => field,
        Err(e) => panic!("parsing '{}' should not fail: {:?}", s, e),
    }
}

fn entries(table: &Table) -> Vec<(Vec<String>, String)> {
    let mut it = table.fields();
    let mut out = Vec::new();
    while let Some(field) = it.next() {
        out.push((segments(field.key()), field.value().to_string()));
    }
    out
}

fn strings(parts: &[&str]) -> Vec<String> {
    parts.iter().map(|s| (*s).to_owned()).collect()
}

#[test]
fn mod_valid() {
    for s in ["amber", "beep_boop", "kv2", "2kv", "55555"] {
        match Ident::parse_str(s) {
            Ok(id) => assert_eq!(id.as_str(), s),
            Err(e) => panic!("parsing '{}' should not fail: {:?}", s, e),
        }
    }
}

#[test]
fn valid() {
    assert_eq!(segments(&parse_key("preen")), strings(&["preen"]));
    assert_eq!(segments(&parse_key("beep.boop")), strings(&["beep", "boop"]));
    assert_eq!(
        segments(&parse_key("bop2.bip2.3dm.4g_nine")),
        strings(&["bop2", "bip2", "3dm", "4g_nine"])
    );
}

#[test]
fn parse_valid() {
    let field = parse_field("preen = 100");
    assert_eq!(segments(field.key()), strings(&["preen"]));
    assert_eq!(field.value(), Value::Integer(100));
    let field = parse_field(r#"beep.boop = "top""#);
    assert_eq!(segments(field.key()), strings(&["beep", "boop"]));
    assert_eq!(field.value(), Value::String("top"));
}

#[test]
fn value_parse_valid() {
    assert_eq!(Value::parse_str(r#""preen""#).unwrap(), Value::String("preen"));
    assert_eq!(Value::parse_str("105").unwrap(), Value::Integer(105));
    assert_eq!(Value::parse_str("999").unwrap(), Value::Integer(999));
}

#[test]
fn table_parse_valid() {
    let table = Table::parse_str("[mongodb]\nusername = \"kate\"\nport = 999").unwrap();
    assert_eq!(segments(table.name()), strings(&["mongodb"]));
    assert_eq!(
        entries(&table),
        vec![
            (strings(&["mongodb", "username"]), "\"kate\"".to_owned()),
            (strings(&["mongodb", "port"]), "999".to_owned()),
        ]
    );
    let table = Table::parse_str("[mongo.db] username = \"kate\" port.alt = 999").unwrap();
    assert_eq!(segments(table.name()), strings(&["mongo", "db"]));
    assert_eq!(
        entries(&table),
        vec![
            (strings(&["mongo", "db", "username"]), "\"kate\"".to_owned()),
            (strings(&["mongo", "db", "port", "alt"]), "999".to_owned()),
        ]
    );
}

#[test]
fn ident_invalid() {
    for s in ["", ".", " ", "...", "???"] {
        assert!(Ident::parse_str(s).is_err(), "parsing '{}' should fail", s);
    }
    assert_eq!(Ident::parse_str("").unwrap_err(), ident::ParseError);
}

#[test]
fn ident_stops_at_the_first_illegal_character() {
    assert_eq!(Ident::parse_str("abc.def").unwrap().as_str(), "abc");
    assert_eq!(Ident::parse_str("abc def").unwrap().as_str(), "abc");
    assert_eq!(Ident::parse_str("abcDef").unwrap().as_str(), "abc");
    assert_eq!(Ident::parse_str("a\u{e9}b").unwrap().as_str(), "a");
}

#[test]
fn key_invalid() {
    for s in ["", " ", ".", "bip.", ".leading"] {
        assert!(Key::parse_str(s).is_err(), "parsing '{}' should fail", s);
    }
}

#[test]
fn key_errors() {
    assert_eq!(Key::parse_str(".leading").unwrap_err(), key::ParseError::LeadingSeparator);
    assert_eq!(Key::parse_str(".").unwrap_err(), key::ParseError::LeadingSeparator);
    assert_eq!(Key::parse_str("").unwrap_err(), key::ParseError::Ident);
    assert_eq!(Key::parse_str(" ").unwrap_err(), key::ParseError::Ident);
    assert_eq!(Key::parse_str("bip.").unwrap_err(), key::ParseError::Ident);
    assert_eq!(Key::parse_str("bip..bop").unwrap_err(), key::ParseError::Ident);
}

#[test]
fn value_invalid() {
    for s in ["", "preen", " "] {
        assert!(Value::parse_str(s).is_err(), "parsing '{}' should fail", s);
    }
}

#[test]
fn value_errors() {
    assert_eq!(
        Value::parse_str("").unwrap_err(),
        value::ParseError::ParseInt(IntError::Empty)
    );
    assert_eq!(
        Value::parse_str("preen").unwrap_err(),
        value::ParseError::ParseInt(IntError::Empty)
    );
    assert_eq!(
        Value::parse_str("18446744073709551616").unwrap_err(),
        value::ParseError::ParseInt(IntError::Overflow)
    );
    assert_eq!(
        Value::parse_str("99999999999999999999999999").unwrap_err(),
        value::ParseError::ParseInt(IntError::Overflow)
    );
    assert_eq!(Value::parse_str("\"open").unwrap_err(), value::ParseError::UnclosedString);
    assert_eq!(Value::parse_str("\"").unwrap_err(), value::ParseError::UnclosedString);
}

#[test]
fn value_edges() {
    assert_eq!(Value::parse_str("0").unwrap(), Value::Integer(0));
    assert_eq!(Value::parse_str("007").unwrap(), Value::Integer(7));
    assert_eq!(
        Value::parse_str("18446744073709551615").unwrap(),
        Value::Integer(u64::MAX)
    );
    assert_eq!(Value::parse_str("\"\"").unwrap(), Value::String(""));
    assert_eq!(Value::parse_str("\"a b\nc\"").unwrap(), Value::String("a b\nc"));
    assert_eq!(Value::parse_str("\"gr\u{fc}n \u{1f600}\" x").unwrap(), Value::String("gr\u{fc}n \u{1f600}"));
    assert_eq!(Value::parse_str("12ab").unwrap(), Value::Integer(12));
}

#[test]
fn field_invalid() {
    for s in ["", ".", " ", "...", "???", " = ", "beep. = 100", "mop=340"] {
        assert!(Field::parse_str(s).is_err(), "parsing '{}' should fail", s);
    }
}

#[test]
fn field_errors() {
    assert_eq!(Field::parse_str("mop=340").unwrap_err(), field::ParseError::Separator);
    assert_eq!(Field::parse_str("mop =340").unwrap_err(), field::ParseError::Separator);
    assert_eq!(Field::parse_str("mop= 340").unwrap_err(), field::ParseError::Separator);
    assert_eq!(Field::parse_str("mop").unwrap_err(), field::ParseError::Separator);
    assert_eq!(
        Field::parse_str(" = ").unwrap_err(),
        field::ParseError::Key(key::ParseError::Ident)
    );
    assert_eq!(
        Field::parse_str(".a = 1").unwrap_err(),
        field::ParseError::Key(key::ParseError::LeadingSeparator)
    );
    assert_eq!(
        Field::parse_str("beep. = 100").unwrap_err(),
        field::ParseError::Key(key::ParseError::Ident)
    );
    assert_eq!(
        Field::parse_str("a = b").unwrap_err(),
        field::ParseError::Value(value::ParseError::ParseInt(IntError::Empty))
    );
    assert_eq!(
        Field::parse_str("a = \"b").unwrap_err(),
        field::ParseError::Value(value::ParseError::UnclosedString)
    );
}

#[test]
fn port_field() {
    let field = parse_field("port = 2020");
    assert_eq!(field.key().to_string(), "port");
    assert_eq!(field.value(), Value::Integer(2020));
    let (key, value) = field.to_kv();
    assert_eq!(segments(&key), strings(&["port"]));
    assert_eq!(value, Value::Integer(2020));
}

#[test]
fn dotted_field() {
    let field = parse_field("beep.boop = \"top\"");
    assert_eq!(field.key().to_string(), "beep.boop");
    assert_eq!(field.value(), Value::String("top"));
    assert_eq!(field.to_string(), "beep.boop = \"top\"");
}

#[test]
fn blank_input_is_nothing() {
    for s in ["", " ", "  ", "\t", "\n", " \n\t ", "\u{a0}", "\u{3000} "] {
        assert!(Ident::parse_str(s).is_err(), "an identifier was read from {:?}", s);
        assert!(Key::parse_str(s).is_err(), "a key was read from {:?}", s);
        assert!(Value::parse_str(s).is_err(), "a value was read from {:?}", s);
    }
}

#[test]
fn what_is_written_reads_back() {
    for text in ["preen", "beep.boop", "bop2.bip2.3dm.4g_nine", "_", "0.1.2"] {
        let key = parse_key(text);
        let written = key.to_string();
        assert_eq!(written, text);
        assert_eq!(parse_key(&written), key);
    }
    for value in [
        Value::Integer(0),
        Value::Integer(2020),
        Value::Integer(u64::MAX),
        Value::String(""),
        Value::String("top"),
        Value::String("a = 1\n[b]"),
    ] {
        let written = value.to_string();
        assert_eq!(Value::parse_str(&written).unwrap(), value);
    }
    for text in ["port = 2020", "beep.boop = \"top\"", "a.b.c = \"\""] {
        let field = parse_field(text);
        let written = field.to_string();
        assert_eq!(written, text);
        assert_eq!(parse_field(&written), field);
    }
}
