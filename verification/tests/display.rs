use book_parser::Book;

#[test]
fn renders_without_description() {
    let line = "Bussysteme in der Fahrzeugtechnik; Werner Zimmermann, Ralf Schmidgall; 35.96";
    let book = line.parse::<Book>().unwrap();
    assert_eq!(
        book.to_display_string(),
        "Title: Bussysteme in der Fahrzeugtechnik, Author: Werner Zimmermann, Ralf Schmidgall, Price:35.96"
    );
}

#[test]
fn renders_with_description() {
    let book = Book {
        title: "A Title".to_string(),
        author: "An Author".to_string(),
        price: "1.5".to_string(),
        description: Some("A note".to_string()),
    };
    assert_eq!(
        book.to_display_string(),
        "Title: A Title, Author: An Author, Price:1.5, Description: A note"
    );
}
