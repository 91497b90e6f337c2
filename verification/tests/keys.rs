use nvee::model::ident::IdentOwned;
use nvee::set::{key_eq, KeyEq};
use nvee::{Field, Ident, Key, Parse, Value};

fn key(s: &str) -> Key<'_> {
    Key::parse_str(s).unwrap()
}

#[test]
fn var_name_is_upper_snake_case() {
    assert_eq!(key("db.url").var_name(), "DB_URL");
    assert_eq!(key("port").var_name(), "PORT");
    assert_eq!(key("bop2.bip2.3dm.4g_nine").var_name(), "BOP2_BIP2_3DM_4G_NINE");
    assert_eq!(key("a_b.c").var_name(), "A_B_C");
}

#[test]
fn var_name_is_the_same_each_time() {
    let k = key("db.url");
    assert_eq!(k.var_name(), k.var_name());
    assert_eq!(k.var_name(), key("db.url").var_name());
}

#[test]
fn to_upper_maps_lowercase_letters_only() {
    assert_eq!(nvee::text::to_upper('a'), 'A');
    assert_eq!(nvee::text::to_upper('z'), 'Z');
    assert_eq!(nvee::text::to_upper('D'), 'D');
    assert_eq!(nvee::text::to_upper('7'), '7');
    assert_eq!(nvee::text::to_upper('_'), '_');
    assert_eq!(nvee::text::to_upper('\u{e9}'), '\u{e9}');
    let mut out = String::from("x");
    nvee::text::push_upper(&mut out, "Db_url9");
    assert_eq!(out, "xDB_URL9");
}

#[test]
fn key_to_string_joins_with_dots() {
    assert_eq!(key("preen").to_string(), "preen");
    assert_eq!(key("beep.boop").to_string(), "beep.boop");
    assert_eq!(key("a.b.c rest").to_string(), "a.b.c");
    assert_eq!(Key::SEPARATOR, '.');
}

#[test]
fn first_and_last_segment() {
    let k = key("bop2.bip2.3dm");
    assert_eq!(k.first_segment().as_str(), "bop2");
    assert_eq!(k.last_segment().as_str(), "3dm");
    let single = key("only");
    assert_eq!(single.first_segment().as_str(), "only");
    assert_eq!(single.last_segment().as_str(), "only");
}

#[test]
fn segments_come_in_order() {
    let k = key("a.b.c");
    let mut it = k.segments();
    assert_eq!(it.next().unwrap().as_str(), "a");
    assert_eq!(it.next().unwrap().as_str(), "b");
    assert_eq!(it.next().unwrap().as_str(), "c");
    assert!(it.next().is_none());
    assert!(it.next().is_none());
}

#[test]
fn chain_appends_the_segments() {
    let a = key("db");
    let b = key("url.alt");
    assert_eq!(a.chain(&b).to_string(), "db.url.alt");
    assert_eq!(b.chain(&a).to_string(), "url.alt.db");
    assert_ne!(a.chain(&b), b.chain(&a));
}

#[test]
fn chain_is_associative() {
    let a = key("a");
    let b = key("b.c");
    let c = key("d");
    let ab = a.chain(&b);
    let bc = b.chain(&c);
    assert_eq!(ab.chain(&c), a.chain(&bc));
    assert_eq!(ab.chain(&c).to_string(), "a.b.c.d");
}

#[test]
fn keys_are_equal_by_their_segments() {
    assert_eq!(key("a.b"), key("a.b"));
    assert_ne!(key("a.b"), key("a"));
    assert_ne!(key("a.b"), key("a.c"));
    assert_ne!(key("ab"), key("a.b"));
    assert!(key("a.b").same(&key("a.b")));
    assert!(!key("a.b").same(&key("b.a")));
    assert_eq!(key("a.b").clone(), key("a.b"));
}

#[test]
fn identifiers_own_and_borrow() {
    let id = Ident::parse_str("amber").unwrap();
    let owned: IdentOwned = id.into_owned();
    assert_eq!(owned.as_ref().as_str(), "amber");
    assert_eq!(owned.as_ref(), id);
    assert_eq!(owned.clone().as_ref(), id);
    assert!(id.same(&Ident::parse_str("amber.x").unwrap()));
    assert_ne!(id, Ident::parse_str("amber_").unwrap());
}

#[test]
fn value_var_and_text() {
    assert_eq!(Value::String("kate").var(), "kate");
    assert_eq!(Value::String("kate").to_string(), "\"kate\"");
    assert_eq!(Value::String("").var(), "");
    assert_eq!(Value::Integer(0).var(), "0");
    assert_eq!(Value::Integer(7).var(), "7");
    assert_eq!(Value::Integer(10).var(), "10");
    assert_eq!(Value::Integer(2020).var(), "2020");
    assert_eq!(Value::Integer(2020).to_string(), "2020");
    assert_eq!(Value::Integer(u64::MAX).var(), "18446744073709551615");
    assert!(Value::Integer(1).same(&Value::Integer(1)));
    assert_ne!(Value::Integer(1), Value::String("1"));
}

#[test]
fn field_with_parent_puts_the_parent_first() {
    let parent = key("db");
    let field = Field::parse_str("url = \"x\"").unwrap();
    let child = field.with_parent(&parent);
    assert_eq!(child.key().to_string(), "db.url");
    assert_eq!(child.value(), Value::String("x"));
    assert_eq!(field.key().to_string(), "url");
    assert_ne!(child, field);
    assert_eq!(field.clone(), field);
}

#[test]
fn items_with_the_same_key_are_key_equal() {
    let a = Field::parse_str("a.b = 1").unwrap();
    let b = Field::parse_str("a.b = \"two\"").unwrap();
    let c = Field::parse_str("a.c = 1").unwrap();
    assert!(key_eq(&a, &b));
    assert!(!key_eq(&a, &c));
    assert_eq!(KeyEq::key(&a).to_string(), "a.b");
}

#[test]
fn an_identifier_reads_as_its_text() {
    let id = Ident::parse_str("beep_boop rest").unwrap();
    assert_eq!(&*id, "beep_boop");
    assert_eq!(id.len(), 9);
    assert!(id.starts_with("beep"));
}
