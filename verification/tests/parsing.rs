use book_parser::Book;
use book_parser::ParseBookError;

#[test]
fn book() {
    let line = "Bussysteme in der Fahrzeugtechnik; Werner Zimmermann, Ralf Schmidgall; 35.96";
    assert_eq!(
        line.parse::<Book>(),
        Ok(Book {
            title: "Bussysteme in der Fahrzeugtechnik".to_string(),
            author: "Werner Zimmermann, Ralf Schmidgall".to_string(),
            price: "35.96".to_string(),
            description: None
        })
    )
}

#[test]
fn book_with_description() {
    let line = "Bussysteme in der Fahrzeugtechnik; Werner Zimmermann, Ralf Schmidgall; 35.96; Erstes deutschsprachiges Buch zur Informationsverarbeitung im Auto, jetzt mit AUTOSAR 3.x";
    assert_eq!(
        line.parse::<Book>(),
        Ok(Book {
            title: "Bussysteme in der Fahrzeugtechnik".to_string(),
            author: "Werner Zimmermann, Ralf Schmidgall".to_string(),
            price: "35.96".to_string(),
            description: Some("Erstes deutschsprachiges Buch zur Informationsverarbeitung im Auto, jetzt mit AUTOSAR 3.x".to_string())
        })
    )
}

#[test]
fn comment() {
    let line = "// Bussysteme in der Fahrzeugtechnik; Werner Zimmermann, Ralf Schmidgall; 35.96";
    assert_eq!(line.parse::<Book>(), Err(ParseBookError::Comment))
}

#[test]
fn missing_author() {
    let line = "Bussysteme in der Fahrzeugtechnik; ; 35.96";
    assert_eq!(line.parse::<Book>(), Err(ParseBookError::InvalidFormat))
}

#[test]
fn too_short() {
    let line = "Bussysteme in der Fahrzeugtechnik; Werner Zimmermann, Ralf Schmidgall";
    assert_eq!(line.parse::<Book>(), Err(ParseBookError::InvalidFormat))
}

#[test]
fn too_long() {
    let line = "Bussysteme in der Fahrzeugtechnik; Werner Zimmermann, Ralf Schmidgall; 35.96; Erstes deutschsprachiges Buch zur Informationsverarbeitung im Auto, jetzt mit AUTOSAR 3.x; Springer";
    assert_eq!(line.parse::<Book>(), Err(ParseBookError::InvalidFormat))
}

#[test]
fn comment_wins_over_field_count() {
    assert_eq!("// just a note".parse::<Book>(), Err(ParseBookError::Comment));
    assert_eq!(
        "//a; ; not a number; d; e".parse::<Book>(),
        Err(ParseBookError::Comment)
    );
}

#[test]
fn comment_after_leading_whitespace() {
    assert_eq!(
        "   // note; author; 1.0".parse::<Book>(),
        Err(ParseBookError::Comment)
    );
}

#[test]
fn slash_inside_title_is_no_comment() {
    let line = "AC/DC; Someone; 9.99";
    assert_eq!(
        line.parse::<Book>(),
        Ok(Book {
            title: "AC/DC".to_string(),
            author: "Someone".to_string(),
            price: "9.99".to_string(),
            description: None
        })
    );
}

#[test]
fn empty_line_is_invalid() {
    assert_eq!("".parse::<Book>(), Err(ParseBookError::InvalidFormat));
}

#[test]
fn one_field_is_invalid() {
    assert_eq!("just a title".parse::<Book>(), Err(ParseBookError::InvalidFormat));
}

#[test]
fn empty_title_is_accepted() {
    assert_eq!(
        "; An Author; 12".parse::<Book>(),
        Ok(Book {
            title: "".to_string(),
            author: "An Author".to_string(),
            price: "12".to_string(),
            description: None
        })
    );
}

#[test]
fn fields_are_trimmed() {
    assert_eq!(
        "  A Title  ;  An Author  ;  1.50  ;  A note  ".parse::<Book>(),
        Ok(Book {
            title: "A Title".to_string(),
            author: "An Author".to_string(),
            price: "1.50".to_string(),
            description: Some("A note".to_string())
        })
    );
}

#[test]
fn unicode_whitespace_is_trimmed() {
    assert_eq!(
        "\u{00A0}A Title\u{3000}; An Author; 2".parse::<Book>(),
        Ok(Book {
            title: "A Title".to_string(),
            author: "An Author".to_string(),
            price: "2".to_string(),
            description: None
        })
    );
}

#[test]
fn whitespace_only_author_is_invalid() {
    assert_eq!(
        "A Title; \t ; 35.96".parse::<Book>(),
        Err(ParseBookError::InvalidFormat)
    );
}

#[test]
fn accepted_price_forms() {
    for price in ["0", "35.96", "-3.5", "+7", "35.", ".5", "007"] {
        let line = format!("T; A; {}", price);
        let parsed = line.parse::<Book>().expect("price should be accepted");
        assert_eq!(parsed.price, price);
    }
}

#[test]
fn rejected_price_forms() {
    for price in ["", ".", "+", "-", "1.2.3", "1e5", "abc", "3,5", "--1", "1 2"] {
        let line = format!("T; A; {}", price);
        assert_eq!(line.parse::<Book>(), Err(ParseBookError::InvalidFormat));
    }
}

#[test]
fn empty_description_is_kept() {
    assert_eq!(
        "T; A; 1.0; ".parse::<Book>(),
        Ok(Book {
            title: "T".to_string(),
            author: "A".to_string(),
            price: "1.0".to_string(),
            description: Some("".to_string())
        })
    );
}

#[test]
fn reparsing_gives_the_same_result() {
    for line in [
        "T; A; 1.0",
        "T; A; 1.0; D",
        "// note",
        "T; ; 1.0",
        "T; A; oops",
        "too; short",
    ] {
        assert_eq!(line.parse::<Book>(), line.parse::<Book>());
    }
}
