use ferriki::json::JsonValue;
use ferriki::plist::parse_plist;

fn same(a: &JsonValue, b: &JsonValue) -> bool {
    match (a, b) {
        (JsonValue::Null, JsonValue::Null) => true,
        (JsonValue::Bool(x), JsonValue::Bool(y)) => x == y,
        (JsonValue::Number(x), JsonValue::Number(y)) => x.signed == y.signed && x.unsigned == y.unsigned && x.text == y.text,
        (JsonValue::String(x), JsonValue::String(y)) => x == y,
        (JsonValue::Array(x), JsonValue::Array(y)) => x.len() == y.len() && x.iter().zip(y.iter()).all(|(p, q)| same(p, q)),
        (JsonValue::Object(x), JsonValue::Object(y)) => {
            x.len() == y.len() && x.iter().zip(y.iter()).all(|(p, q)| p.0 == q.0 && same(&p.1, &q.1))
        }
        _ => false,
    }
}

#[test]
fn parses_upstream_property_list_values() {
    let value = parse_plist(
        r#"<?xml version="1.0"?>
            <!DOCTYPE plist>
            <plist version="1.0">
                <dict>
                    <key>scopeName</key>
                    <string>source.test</string>
                    <key>patterns</key>
                    <array>
                        <dict>
                            <key>match</key>
                            <string>&lt;([a-z]+)&gt;</string>
                            <key>applyEndPatternLast</key>
                            <integer>1</integer>
                        </dict>
                        <dict/>
                    </array>
                    <key>enabled</key>
                    <true/>
                </dict>
            </plist>"#,
    )
    .unwrap();

    let expected = JsonValue::parse(
        r#"{
            "scopeName": "source.test",
            "patterns": [
                {
                    "match": "<([a-z]+)>",
                    "applyEndPatternLast": 1
                },
                {}
            ],
            "enabled": true
        }"#,
    )
    .unwrap();
    assert!(same(&value, &expected), "{:?}", value);
}

#[test]
fn decodes_numeric_and_named_entities_once() {
    let value = parse_plist(
        r#"<plist><array>
                <string>&#65;&#x1f600;&amp;&lt;&gt;&quot;&apos;</string>
                <string>&amp;#65;</string>
            </array></plist>"#,
    )
    .unwrap();

    let expected = JsonValue::parse(r#"["A😀&<>\"'", "&#65;"]"#).unwrap();
    assert!(same(&value, &expected), "{:?}", value);
}

#[test]
fn plist_repeated_key_keeps_last_value_in_key_order() {
    let value = parse_plist("<dict><key>b</key><integer>-7</integer><key>a</key><string>x</string><key>b</key><false/></dict>").unwrap();
    let expected = JsonValue::parse(r#"{"a": "x", "b": false}"#).unwrap();
    assert!(same(&value, &expected), "{:?}", value);
}

#[test]
fn plist_reads_reals_and_negative_integers() {
    let value = parse_plist("\u{feff}<array><real>1.5</real><integer>-7</integer><date>d</date></array>").unwrap();
    let expected = JsonValue::parse(r#"[1.5, -7, "d"]"#).unwrap();
    assert!(same(&value, &expected), "{:?}", value);
}

#[test]
fn plist_errors_carry_byte_offsets_and_messages() {
    let err = parse_plist("<array></dict>").unwrap_err();
    assert_eq!(err.message, "unexpected closed tag");
    assert_eq!(err.offset, 8);
    let err = parse_plist("<plist><array/></dict>").unwrap_err();
    assert_eq!(err.message, "expected </plist>, found </dict>");
    assert_eq!(err.offset, 22);
    let err = parse_plist("é<dict/>").unwrap_err();
    assert_eq!(err.message, "expected <");
    assert_eq!(err.offset, 0);
    let err = parse_plist("<dict/> <dict/>").unwrap_err();
    assert_eq!(err.message, "too many constructs in root");
    assert_eq!(err.offset, 8);
    let err = parse_plist("<dict><string>a</string></dict>").unwrap_err();
    assert_eq!(err.message, "missing <key>");
    let err = parse_plist("<integer>x</integer>").unwrap_err();
    assert_eq!(err.message, "cannot parse integer");
    let err = parse_plist("<real>x</real>").unwrap_err();
    assert_eq!(err.message, "cannot parse float");
    let err = parse_plist("<foo/>").unwrap_err();
    assert_eq!(err.message, "unexpected opened tag foo");
    assert_eq!(err.offset, 6);
    let err = parse_plist("<array><string>é</strin>").unwrap_err();
    assert_eq!(err.message, "expected </string>, found </strin>");
    assert_eq!(err.offset, 25);
}
