use steno_utils::{decode_frame, Dictionary, Key, Machine, Outline, ParseError, Stroke, Token};

#[test]
fn key_to_stroke() {
    let stroke: Stroke = Key::LeftS.into();
    assert!(stroke.contains(Key::LeftS));
    assert!(!stroke.contains(Key::RightS));
}

#[test]
fn or_key_to_stroke() {
    let stroke: Stroke = Key::LeftS.into();
    assert!(stroke.contains(Key::LeftS));
    assert!(!stroke.contains(Key::MiddleStar));
    assert!(!stroke.contains(Key::RightS));

    let stroke2: Stroke = stroke.union_key(Key::RightS);
    assert!(stroke2.contains(Key::LeftS));
    assert!(!stroke2.contains(Key::MiddleStar));
    assert!(stroke2.contains(Key::RightS));

    let stroke3: Stroke = Key::LeftP.union(Key::RightP);
    assert!(stroke3.contains(Key::LeftP));
    assert!(!stroke3.contains(Key::MiddleStar));
    assert!(stroke3.contains(Key::RightP));
}

#[test]
fn stroke_display() {
    let stroke: Stroke = Key::LeftS.into();
    assert_eq!(stroke.format(), "S");

    let stroke2: Stroke = stroke.union_key(Key::RightS);
    assert_eq!(stroke2.format(), "S-S");

    let stroke3: Stroke = Key::RightS.into();
    assert_eq!(stroke3.format(), "-S");

    let stroke4: Stroke = Key::LeftP.union(Key::RightS);
    assert_eq!(stroke4.format(), "P-S");

    let stroke5: Stroke = Key::LeftS.union(Key::MiddleStar).union_key(Key::RightP);
    assert_eq!(stroke5.format(), "S*P");
}

#[test]
fn parse_stroke() -> Result<(), ParseError> {
    let strokes = &["A", "SA", "AS", "SAS", "S-S"];
    for stroke in strokes {
        let s: Stroke = Stroke::parse(stroke)?;
        assert_eq!(&s.format(), stroke);
    }

    Ok(())
}

#[test]
fn test_all_main_parses() {
    let outlines = [
        "AFT",
        "HE",
        "WHA",
        "TKE/SREL/OP",
        "#R*E",
        "S-S",
        "KAT",
        "TKOG",
        "PHE/THOD",
        "STKPWHRAO*EUFRPBLGTSDZ",
        "^+S",
    ];
    for outline in outlines {
        let strokes = outline.split("/");
        for stroke in strokes {
            match Stroke::parse(stroke) {
                Ok(s) => assert_eq!(s.format(), stroke),
                Err(e) => panic!("Failed to parse {stroke:?}: {e:?}"),
            }
        }
    }
}

#[test]
fn regression() -> Result<(), ParseError> {
    let stroke = Key::ControlNum
        .union(Key::LeftR)
        .union_key(Key::MiddleStar)
        .union_key(Key::MiddleE);
    assert_eq!(&stroke.format(), "#R*E");

    Ok(())
}

#[test]
fn plover_dict_parse() {
    assert_eq!(Token::parse("Hello"), Token::Word("Hello".to_string()));
    assert_eq!(Token::parse("{^}"), Token::Attach);
    assert_eq!(Token::parse("{&a}"), Token::Glue("a".to_string()));
    assert_eq!(Token::parse("{^ab}"), Token::Suffix("ab".to_string()));
    assert_eq!(Token::parse("{cd^}"), Token::Prefix("cd".to_string()));
}

#[test]
fn test_dictionary() -> Result<(), ParseError> {
    let mut dictionary = Dictionary::new();
    dictionary.insert("AFT", "after");
    dictionary.insert("HE", "he");
    dictionary.insert("WHA", "what");
    dictionary.insert("TKE/SREL/OP", "develop");

    let outline = Outline::parse("AFT")?;
    assert_eq!(
        dictionary.lookup(outline),
        Some(Token::Word("after".to_string()))
    );

    let outline = Outline::parse("HE")?;
    assert_eq!(
        dictionary.lookup(outline),
        Some(Token::Word("he".to_string()))
    );

    let outline = Outline::parse("WHA")?;
    assert_eq!(
        dictionary.lookup(outline),
        Some(Token::Word("what".to_string()))
    );

    let outline = Outline::parse("TKE/SREL/OP")?;
    assert_eq!(
        dictionary.lookup(outline),
        Some(Token::Word("develop".to_string()))
    );

    Ok(())
}

#[test]
fn parse_rejects_empty() {
    assert_eq!(Stroke::parse(""), Err(ParseError::EmptyStroke));
    assert_eq!(Stroke::parse("-"), Err(ParseError::EmptyStroke));
}

#[test]
fn parse_rejects_unrecognized() {
    assert_eq!(Stroke::parse("zzz"), Err(ParseError::EmptyStroke));
    assert_eq!(Stroke::parse("SX"), Err(ParseError::EmptyStroke));
    assert_eq!(Stroke::parse("S A"), Err(ParseError::EmptyStroke));
}

#[test]
fn outline_parse_rejects_bad_segments() {
    assert!(Outline::parse("").is_err());
    assert!(Outline::parse("A/").is_err());
    assert!(Outline::parse("/A").is_err());
    assert!(Outline::parse("A//B").is_err());
    assert!(Outline::parse("S/-S").is_ok());
}

#[test]
fn concrete_stroke_vectors() {
    let s = Stroke::parse("S").unwrap();
    assert!(s.contains(Key::LeftS));
    assert!(!s.contains(Key::RightS));
    assert!(!s.contains(Key::MiddleA));
    assert_eq!(s.format(), "S");

    let s = Stroke::parse("-S").unwrap();
    assert!(s.contains(Key::RightS));
    assert!(!s.contains(Key::LeftS));
    assert_eq!(s.format(), "-S");

    let s = Stroke::parse("S*P").unwrap();
    assert!(s.contains(Key::LeftS));
    assert!(s.contains(Key::MiddleStar));
    assert!(s.contains(Key::RightP));
    assert!(!s.contains(Key::LeftP));
    assert!(!s.contains(Key::RightS));
}

#[test]
fn token_precedence_attach() {
    assert_eq!(Token::parse("{^}"), Token::Attach);
    assert_ne!(Token::parse("{^}"), Token::Suffix(String::new()));
    assert_ne!(Token::parse("{^}"), Token::Prefix(String::new()));
}

#[test]
fn token_variants() {
    assert_eq!(Token::parse("{^ab^}"), Token::Infix("ab".to_string()));
    assert_eq!(Token::parse("{a^b^}"), Token::Prefix("a^b".to_string()));
    assert_eq!(Token::parse("{&a}x"), Token::Glue("a".to_string()));
    assert_eq!(Token::parse("{&}"), Token::Word("{&}".to_string()));
    assert_eq!(Token::parse("{x}y"), Token::Word("{x}y".to_string()));
    assert_eq!(Token::parse(""), Token::Word(String::new()));
}

#[test]
fn lookup_absent() -> Result<(), ParseError> {
    let mut dictionary = Dictionary::new();
    dictionary.insert("AFT", "after");

    let outline = Outline::parse("ZZZZ")?;
    assert_eq!(dictionary.lookup(outline), None);

    Ok(())
}

#[test]
fn decode_frame_left_s_middle_a() {
    let frame = [0x80u8, 0x20, 0x20, 0x00, 0x00, 0x00];
    let stroke = decode_frame(&frame).expect("frame binds keys");
    let all_keys = vec![
        Key::ControlNum,
        Key::ControlLeft,
        Key::ControlRight,
        Key::LeftS,
        Key::LeftT,
        Key::LeftK,
        Key::LeftP,
        Key::LeftW,
        Key::LeftH,
        Key::LeftR,
        Key::MiddleA,
        Key::MiddleO,
        Key::MiddleStar,
        Key::MiddleE,
        Key::MiddleU,
        Key::RightF,
        Key::RightR,
        Key::RightP,
        Key::RightB,
        Key::RightL,
        Key::RightG,
        Key::RightT,
        Key::RightS,
        Key::RightD,
        Key::RightZ,
    ];
    for key in all_keys {
        if key == Key::LeftS || key == Key::MiddleA {
            assert!(stroke.contains(key));
        } else {
            assert!(!stroke.contains(key));
        }
    }
    assert_eq!(stroke.format(), "SA");
}

#[test]
fn decode_frame_no_keys() {
    assert!(decode_frame(&[0u8; 6]).is_none());
    assert!(decode_frame(&[0x80u8, 0x00, 0x00, 0x00, 0x00, 0x00]).is_none());
}

#[test]
fn outline_join_and_format() -> Result<(), ParseError> {
    let o = Stroke::parse("S")?.join(Stroke::parse("-S")?);
    assert_eq!(o.format(), "S/-S");

    let o = o.join(Stroke::parse("A")?);
    assert_eq!(o.format(), "S/-S/A");

    let o = Outline::parse("TKE/SREL/OP")?;
    assert_eq!(o.format(), "TKE/SREL/OP");

    let o = Outline::from_stroke(Stroke::parse("AFT")?);
    assert_eq!(o.format(), "AFT");

    Ok(())
}

#[test]
fn machine_commits_empty_text() {
    let mut machine = Machine::new();
    machine.input(Token::Word("after".to_string()));
    machine.input(Token::Attach);
    assert_eq!(machine.commit(), "");
    machine.input(Token::Glue("a".to_string()));
    assert_eq!(machine.commit(), "");
}
