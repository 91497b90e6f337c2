use nvee::model::document;
use nvee::model::field;
use nvee::model::item;
use nvee::model::key;
use nvee::model::table;
use nvee::model::value;
use nvee::parser::IntError;
use nvee::{Document, Field, Item, Key, KeyedSet, Parse, Parser, Table, Value};

const EXAMPLE: &str = "[db]\nurl = \"https://example.com\"\nport = 2020";

const FULL: &str = "author = \"kate\"\n[db]\nurl = \"https://example.com\"\nport = 2020";

fn pairs(list: &[(&str, &str)]) -> Vec<(String, String)> {
    list.iter().map(|(k, v)| ((*k).to_owned(), (*v).to_owned())).collect()
}

fn field(s: &str) -> Field<'_> {
    Field::parse_str(s).unwrap()
}

#[test]
fn example() {
    let doc = Document::parse_str(EXAMPLE).unwrap();
    assert!(doc.fields().is_empty());
    let tables = doc.tables();
    assert_eq!(tables.len(), 1);
    assert_eq!(tables[0].name().to_string(), "db");
    let mut it = tables[0].fields();
    let url = it.next().unwrap();
    assert_eq!(url.key().to_string(), "db.url");
    assert_eq!(url.value(), Value::String("https://example.com"));
    let port = it.next().unwrap();
    assert_eq!(port.key().to_string(), "db.port");
    assert_eq!(port.value(), Value::Integer(2020));
    assert!(it.next().is_none());
    assert!(doc.base_key().is_none());
}

#[test]
fn document_vars() {
    let doc = Document::parse_str(EXAMPLE).unwrap();
    assert_eq!(
        doc.vars(),
        pairs(&[("DB_URL", "https://example.com"), ("DB_PORT", "2020")])
    );
}

#[test]
fn document_vars_basename() {
    let mut doc = Document::parse_str(EXAMPLE).unwrap();
    doc.set_basename("example".to_owned());
    assert_eq!(doc.base_key().unwrap().to_string(), "example");
    assert_eq!(
        doc.vars(),
        pairs(&[("EXAMPLE_DB_URL", "https://example.com"), ("EXAMPLE_DB_PORT", "2020")])
    );
}

#[test]
fn top_level_fields_and_tables() {
    let doc = Document::parse_str(FULL).unwrap();
    let fields = doc.fields();
    assert_eq!(fields.len(), 1);
    assert_eq!(fields[0].to_string(), "author = \"kate\"");
    assert_eq!(doc.tables().len(), 1);
    assert_eq!(
        doc.vars(),
        pairs(&[("AUTHOR", "kate"), ("DB_URL", "https://example.com"), ("DB_PORT", "2020")])
    );
    let mut doc = Document::parse_str(FULL).unwrap();
    doc.set_basename("example".to_owned());
    assert_eq!(
        doc.vars(),
        pairs(&[
            ("EXAMPLE_AUTHOR", "kate"),
            ("EXAMPLE_DB_URL", "https://example.com"),
            ("EXAMPLE_DB_PORT", "2020"),
        ])
    );
}

#[test]
fn several_tables() {
    let text = "author = \"kate\"\nword = \"jaunt\"\n\n[table]\nlucky_number = 777\n\n[another.table]\neven_luckier = 7777\nsnake_eyes = 66\n";
    let mut doc = Document::parse_str(text).unwrap();
    doc.set_basename("example".to_owned());
    assert_eq!(
        doc.vars(),
        pairs(&[
            ("EXAMPLE_AUTHOR", "kate"),
            ("EXAMPLE_WORD", "jaunt"),
            ("EXAMPLE_TABLE_LUCKY_NUMBER", "777"),
            ("EXAMPLE_ANOTHER_TABLE_EVEN_LUCKIER", "7777"),
            ("EXAMPLE_ANOTHER_TABLE_SNAKE_EYES", "66"),
        ])
    );
}

#[test]
fn a_base_name_that_is_no_key_is_ignored() {
    let mut doc = Document::parse_str("a = 1").unwrap();
    doc.set_basename("Example".to_owned());
    assert!(doc.base_key().is_none());
    assert_eq!(doc.vars(), pairs(&[("A", "1")]));
    let mut doc = Document::parse_str("a = 1").unwrap();
    doc.set_basename(".hidden".to_owned());
    assert!(doc.base_key().is_none());
    let mut doc = Document::parse_str("a = 1").unwrap();
    doc.set_basename("my.app".to_owned());
    assert_eq!(doc.vars(), pairs(&[("MY_APP_A", "1")]));
    let mut doc = Document::parse_str("a = 1").unwrap();
    doc.set_basename("first".to_owned());
    doc.set_basename("second".to_owned());
    assert_eq!(doc.vars(), pairs(&[("SECOND_A", "1")]));
}

#[test]
fn empty_documents() {
    let doc = Document::parse_str("").unwrap();
    assert!(doc.fields().is_empty());
    assert!(doc.tables().is_empty());
    assert!(doc.vars().is_empty());
    let doc = Document::default();
    assert!(doc.base_key().is_none());
    assert!(doc.vars().is_empty());
}

#[test]
fn duplicate_top_level_fields() {
    match Document::parse_str("a = 1\na = 2") {
        Err(document::ParseError::DuplicateKey(key)) => assert_eq!(key.to_string(), "a"),
        other => panic!("expected a duplicate key, got {:?}", other),
    }
}

#[test]
fn duplicate_items_of_any_kind() {
    match Document::parse_str("db = 1\n[db]\nurl = 2") {
        Err(document::ParseError::DuplicateKey(key)) => assert_eq!(key.to_string(), "db"),
        other => panic!("expected a duplicate key, got {:?}", other),
    }
    match Document::parse_str("[a.b]\nx = 1\n\n[a.b]\ny = 2") {
        Err(document::ParseError::DuplicateKey(key)) => assert_eq!(key.to_string(), "a.b"),
        other => panic!("expected a duplicate key, got {:?}", other),
    }
    // the same key in two tables is no duplicate
    let doc = Document::parse_str("[a]\nx = 1\n\n[b]\nx = 2").unwrap();
    assert_eq!(doc.vars(), pairs(&[("A_X", "1"), ("B_X", "2")]));
    // nor is a top-level key that a table holds too
    let doc = Document::parse_str("x = 0\n[a]\nx = 1").unwrap();
    assert_eq!(doc.vars(), pairs(&[("X", "0"), ("A_X", "1")]));
}

#[test]
fn document_errors() {
    assert!(matches!(
        Document::parse_str("mop=340"),
        Err(document::ParseError::Field(field::ParseError::Separator))
    ));
    assert!(matches!(
        Document::parse_str("\na = 1"),
        Err(document::ParseError::Field(field::ParseError::Key(key::ParseError::Ident)))
    ));
    assert!(matches!(
        Document::parse_str("a = 1\n[t"),
        Err(document::ParseError::Table(table::ParseError::Name(None)))
    ));
    assert!(matches!(
        Document::parse_str("a = 1 b = 2"),
        Err(document::ParseError::Field(field::ParseError::Key(key::ParseError::Ident)))
    ));
}

#[test]
fn table_errors() {
    assert!(matches!(Table::parse_str("x"), Err(table::ParseError::Name(None))));
    assert!(matches!(Table::parse_str(""), Err(table::ParseError::Name(None))));
    assert!(matches!(Table::parse_str("[a"), Err(table::ParseError::Name(None))));
    assert!(matches!(
        Table::parse_str("[]"),
        Err(table::ParseError::Name(Some(key::ParseError::Ident)))
    ));
    assert!(matches!(
        Table::parse_str("[.a]"),
        Err(table::ParseError::Name(Some(key::ParseError::LeadingSeparator)))
    ));
    assert!(matches!(Table::parse_str("[a]"), Err(table::ParseError::MissingDelimiter)));
    assert!(matches!(Table::parse_str("[a]x = 1"), Err(table::ParseError::MissingDelimiter)));
    match Table::parse_str("[a]\nx = 1\ny=2") {
        Err(table::ParseError::Field { source, index }) => {
            assert_eq!(source, field::ParseError::Separator);
            assert_eq!(index, 1);
        },
        other => panic!("expected a field error, got {:?}", other),
    }
    match Table::parse_str("[a] x = y") {
        Err(table::ParseError::Field { source, index }) => {
            assert_eq!(
                source,
                field::ParseError::Value(value::ParseError::ParseInt(IntError::Empty))
            );
            assert_eq!(index, 0);
        },
        other => panic!("expected a field error, got {:?}", other),
    }
    match Table::parse_str("[a]\nx.y = 1\nz = 2\nx.y = 3") {
        Err(table::ParseError::DuplicateKey(key)) => assert_eq!(key, "x.y"),
        other => panic!("expected a duplicate key, got {:?}", other),
    }
}

#[test]
fn a_table_ends_at_a_bracket_or_an_empty_line() {
    let mut p = Parser::new("[a]\nx = 1\n[b]\ny = 2");
    let table: Table = p.parse().unwrap();
    assert_eq!(table.name().to_string(), "a");
    assert_eq!(p.peek_char(), Some('['));
    let mut p = Parser::new("[a]\nx = 1\n\ny = 2");
    let table: Table = p.parse().unwrap();
    assert_eq!(table.to_string(), "[a]\na.x = 1\n");
    assert_eq!(p.peek_char(), Some('\n'));
    let table = Table::parse_str("[a]\n").unwrap();
    assert!(table.fields().next().is_none());
    assert_eq!(table.to_string(), "[a]\n");
}

#[test]
fn mongodb_table() {
    let text = "[mongodb]\nusername = \"kate\"\nport = 999";
    let table = Table::parse_str(text).unwrap();
    assert_eq!(table.name().to_string(), "mongodb");
    let mut it = table.fields();
    let mut count = 0;
    while let Some(_field) = it.next() {
        count += 1;
    }
    assert_eq!(count, 2);
    assert_eq!(table.to_string(), "[mongodb]\nmongodb.username = \"kate\"\nmongodb.port = 999\n");
    let doc = Document::parse_str(text).unwrap();
    assert_eq!(doc.vars(), pairs(&[("MONGODB_USERNAME", "kate"), ("MONGODB_PORT", "999")]));
}

#[test]
fn items_are_fields_or_tables() {
    let item = Item::parse_str("a.b = 1").unwrap();
    assert!(matches!(item, Item::Field(_)));
    let vars = item.vars();
    assert_eq!(vars.len(), 1);
    assert_eq!(vars[0].0.to_string(), "a.b");
    assert_eq!(vars[0].1, Value::Integer(1));
    let item = Item::parse_str("[t]\na = 1\nb = \"two\"").unwrap();
    assert!(matches!(item, Item::Table(_)));
    let vars = item.vars();
    assert_eq!(vars.len(), 2);
    assert_eq!(vars[0].0.to_string(), "t.a");
    assert_eq!(vars[0].1, Value::Integer(1));
    assert_eq!(vars[1].0.to_string(), "t.b");
    assert_eq!(vars[1].1, Value::String("two"));
    assert!(matches!(
        Item::parse_str("[t"),
        Err(item::ParseError::Table(table::ParseError::Name(None)))
    ));
    assert!(matches!(
        Item::parse_str("t"),
        Err(item::ParseError::Field(field::ParseError::Separator))
    ));
}

#[test]
fn inserting_a_key_twice_keeps_the_first_item() {
    let mut set: KeyedSet<Field> = KeyedSet::new();
    assert_eq!(set.len(), 0);
    assert!(set.insert(field("a = 1")));
    assert!(!set.insert(field("a = 2")));
    assert!(!set.insert(field("a = 1")));
    assert_eq!(set.len(), 1);
    let kept = set.get(Key::parse_str("a").unwrap()).unwrap();
    assert_eq!(kept.value(), Value::Integer(1));
    assert!(set.insert(field("b = 2")));
    assert_eq!(set.len(), 2);
}

#[test]
fn lookup_is_by_key() {
    let mut set: KeyedSet<Field> = KeyedSet::default();
    set.insert(field("a.b = 1"));
    set.insert(field("c = \"x\""));
    assert!(set.contains(Key::parse_str("a.b").unwrap()));
    assert!(set.contains(Key::parse_str("c").unwrap()));
    assert!(!set.contains(Key::parse_str("a").unwrap()));
    assert!(!set.contains(Key::parse_str("b").unwrap()));
    assert!(set.get(Key::parse_str("a.c").unwrap()).is_none());
    assert_eq!(set.get(Key::parse_str("c").unwrap()).unwrap().value(), Value::String("x"));
}

#[test]
fn iteration_hands_out_every_item_once() {
    let mut set: KeyedSet<Field> = KeyedSet::new();
    set.insert(field("a = 1"));
    set.insert(field("b = 2"));
    set.insert(field("a = 3"));
    set.insert(field("c = 4"));
    let mut seen = Vec::new();
    let mut it = set.iter();
    while let Some(f) = it.next() {
        seen.push(f.to_string());
    }
    assert_eq!(seen, vec!["a = 1", "b = 2", "c = 4"]);
    let mut owned = Vec::new();
    let mut it = set.into_iter();
    while let Some(f) = it.next() {
        owned.push(f.to_string());
    }
    assert_eq!(owned, vec!["a = 1", "b = 2", "c = 4"]);
    let empty: KeyedSet<Field> = KeyedSet::new();
    assert!(empty.iter().next().is_none());
    assert!(empty.into_iter().next().is_none());
}

#[test]
fn errors_wrap_the_errors_of_their_parts() {
    assert_eq!(key::ParseError::from(nvee::model::ident::ParseError), key::ParseError::Ident);
    assert_eq!(
        value::ParseError::from(IntError::Overflow),
        value::ParseError::ParseInt(IntError::Overflow)
    );
    assert_eq!(
        field::ParseError::from(key::ParseError::LeadingSeparator),
        field::ParseError::Key(key::ParseError::LeadingSeparator)
    );
    assert_eq!(
        field::ParseError::from(value::ParseError::UnclosedString),
        field::ParseError::Value(value::ParseError::UnclosedString)
    );
    assert!(matches!(
        table::ParseError::from(key::ParseError::Ident),
        table::ParseError::Name(Some(key::ParseError::Ident))
    ));
    assert!(matches!(
        item::ParseError::from(field::ParseError::Separator),
        item::ParseError::Field(field::ParseError::Separator)
    ));
    assert!(matches!(
        item::ParseError::from(table::ParseError::MissingDelimiter),
        item::ParseError::Table(table::ParseError::MissingDelimiter)
    ));
    assert!(matches!(
        document::ParseError::from(field::ParseError::Separator),
        document::ParseError::Field(field::ParseError::Separator)
    ));
    assert!(matches!(
        document::ParseError::from(table::ParseError::MissingDelimiter),
        document::ParseError::Table(table::ParseError::MissingDelimiter)
    ));
}

#[test]
fn fields_stand_before_the_first_table() {
    assert!(matches!(
        Document::parse_str("[a]\nx = 1\n\ny = 2"),
        Err(document::ParseError::Table(table::ParseError::Name(None)))
    ));
    let doc = Document::parse_str("y = 2\nz = 3\n\n[a]\nx = 1\n\n[b]\nx = 1").unwrap();
    assert_eq!(doc.fields().len(), 2);
    assert_eq!(doc.tables().len(), 2);
    assert_eq!(
        doc.vars(),
        pairs(&[("Y", "2"), ("Z", "3"), ("A_X", "1"), ("B_X", "1")])
    );
}
