use siliceo_motor::json::{parse, write_escaped, Json};

#[test]
fn parse_chat_request() {
    let src = r#"{"model":"qwen","messages":[
            {"role":"system","content":"Sei utile."},
            {"role":"user","content":"Ciao \"mondo\"\nè tardi"}
        ],"temperature":0.7,"top_p":0.9,"max_tokens":128,"stop":["FINE"]}"#;
    let j = parse(src).unwrap();
    assert_eq!(j.get("model").unwrap().as_str(), Some("qwen"));
    let msgs = j.get("messages").unwrap().as_arr().unwrap();
    assert_eq!(msgs.len(), 2);
    assert_eq!(msgs[0].get("role").unwrap().as_str(), Some("system"));
    assert_eq!(msgs[1].get("content").unwrap().as_str(), Some("Ciao \"mondo\"\nè tardi"));
    assert!((f64::from_bits(j.get("temperature").unwrap().as_f64().unwrap()) - 0.7).abs() < 1e-9);
    assert_eq!(j.get("max_tokens").unwrap().as_usize(), Some(128));
    assert_eq!(j.get("top_k"), None);
}

#[test]
fn roundtrip_unicode_e_escape() {
    let orig = "accenti àèìòù emoji \u{1F600} newline\n tab\t";
    let mut buf = String::new();
    write_escaped(&mut buf, orig);
    let parsed = parse(&buf).unwrap();
    assert_eq!(parsed.as_str(), Some(orig));
}

#[test]
fn errori_puliti() {
    assert!(parse("{").is_err());
    assert!(parse("{\"a\":}").is_err());
    assert!(parse("[1,2").is_err());
    assert!(parse("{} extra").is_err());
}

#[test]
fn dump_num_intero_senza_decimale() {
    assert_eq!(Json::Num(42.0f64.to_bits()).dump(), "42");
    assert_eq!(Json::Num(0.5f64.to_bits()).dump(), "0.5");
}

fn number(s: &str) -> f64 {
    f64::from_bits(parse(s).unwrap().as_f64().unwrap())
}

#[test]
fn numbers_are_the_nearest_doubles() {
    for s in [
        "0", "-0", "1", "-1", "0.1", "0.3", "1e300", "1e-300", "123456789012345678901234567890", "2.5E+3", "5e-324",
        "2.4703282292062327e-324", "1.7976931348623157e308", "0.1e1", "9007199254740993", "1e400", "3.", ".5",
    ] {
        let want: f64 = s.parse().unwrap();
        assert_eq!(number(s).to_bits(), want.to_bits(), "{s}");
    }
}

#[test]
fn dumps_are_the_shortest() {
    for x in [
        0.1, 0.3, 1.0 / 3.0, 1e21, 1e22, 1e-7, 123456.789, -2.5, 5e-324, 1.7976931348623157e308, 9e15, 8999999999999999.0,
        9007199254740993.0, -1e20, 4.35, 0.000123,
    ] {
        let f: f64 = x;
        let text = Json::Num(f.to_bits()).dump();
        let want = if f.fract() == 0.0 && f.abs() < 9e15 { format!("{}", f as i64) } else { format!("{f}") };
        assert_eq!(text, want);
        assert_eq!(number(&text).to_bits(), f.to_bits());
    }
    assert_eq!(Json::Num((-0.0f64).to_bits()).dump(), "0");
}

#[test]
fn whole_values_read_back() {
    let text = r#"{"a":[1,2.5,-3,null,true,false,"x\"\\\u0001\n"],"b":{},"c":[]}"#;
    let j = parse(text).unwrap();
    assert_eq!(j.dump(), text);
    assert_eq!(parse(&j.dump()).unwrap(), j);
    let zeros = Json::Arr(vec![Json::Num((-0.0f64).to_bits()), Json::Num(0)]);
    assert_eq!(parse(&zeros.dump()).unwrap(), Json::Arr(vec![Json::Num(0), Json::Num(0)]));
    assert_eq!(parse(&format!(" \t\r\n{text}\n \r\t")).unwrap(), j);
    assert_eq!(parse("\n\"\u{e8}\" ").unwrap().as_str(), Some("è"));
    assert_eq!(j.clone(), j);
    assert_eq!(parse(" [ 1 , 2 ] \n").unwrap().dump(), "[1,2]");
}

#[test]
fn messages_of_errors() {
    let say = |s: &str| parse(s).unwrap_err();
    assert_eq!(say(""), "JSON troncato");
    assert_eq!(say("{1}"), "attesa chiave stringa alla posizione 1");
    assert_eq!(say("{\"a\" 1}"), "atteso ':' dopo la chiave alla posizione 5");
    assert_eq!(say("{} extra"), "contenuto inatteso dopo il JSON alla posizione 3");
    assert_eq!(say("[1;2]"), "atteso ',' o ']' nell'array");
    assert_eq!(say("\"abc"), "stringa non chiusa");
    assert_eq!(say("\"\\"), "escape troncato");
    assert_eq!(say("\"\\x\""), "escape non riconosciuto");
    assert_eq!(say("\"\\u12\""), "\\u troncato");
    assert_eq!(say("\"\\uzzzz\""), "\\u non esadecimale");
    assert_eq!(say("\"\\ud800x\""), "surrogate basso mancante");
    assert_eq!(say("\"\\ud800\\u0041\""), "surrogate basso mancante");
    assert_eq!(say("1.2.3"), "numero non valido: \"1.2.3\"");
}

#[test]
fn surrogate_pairs() {
    assert_eq!(parse("\"\\ud83d\\ude00\"").unwrap().as_str(), Some("\u{1F600}"));
    assert_eq!(parse("\"\\u00e8\"").unwrap().as_str(), Some("è"));
}

#[test]
fn views_of_values() {
    let j = parse(r#"{"n":3.9,"neg":-4,"s":"t","n":5}"#).unwrap();
    assert_eq!(j.get("n").unwrap().as_usize(), Some(3));
    assert_eq!(j.get("neg").unwrap().as_usize(), Some(0));
    assert_eq!(j.get("s").unwrap().as_usize(), None);
    assert_eq!(j.get("s").unwrap().as_arr(), None);
    assert_eq!(Json::Null.get("s"), None);
}
