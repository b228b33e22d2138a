use mdbook_verified::book::{Book, BookItem, Chapter, SectionNumber};

fn items_of(book: &Book) -> Vec<&BookItem> {
    let mut it = book.iter();
    let mut got = Vec::new();
    while let Some(x) = it.next() {
        got.push(x);
    }
    got
}

fn nested_sections() -> Vec<BookItem> {
    vec![
        BookItem::Chapter(Chapter {
            name: String::from("Chapter 1"),
            content: String::from("# Chapter 1"),
            number: None,
            path: Some(String::from("Chapter_1/index.md")),
            source_path: Some(String::from("Chapter_1/index.md")),
            parent_names: Vec::new(),
            sub_items: vec![
                BookItem::Chapter(Chapter::new(
                    "Hello World",
                    String::new(),
                    "Chapter_1/hello.md",
                    Vec::new(),
                )),
                BookItem::Separator,
                BookItem::Chapter(Chapter::new(
                    "Goodbye World",
                    String::new(),
                    "Chapter_1/goodbye.md",
                    Vec::new(),
                )),
            ],
        }),
        BookItem::Separator,
    ]
}

#[test]
fn section_number_has_correct_dotted_representation() {
    let inputs = vec![
        (vec![0], "0."),
        (vec![1, 3], "1.3."),
        (vec![1, 2, 3], "1.2.3."),
    ];

    for (input, should_be) in inputs {
        let section_number = SectionNumber(input).to_string();
        assert_eq!(section_number, should_be);
    }
}

#[test]
fn book_iter_iterates_over_sequential_items() {
    let sections = vec![
        BookItem::Chapter(Chapter {
            name: String::from("Chapter 1"),
            content: String::from("# Chapter 1"),
            ..Default::default()
        }),
        BookItem::Separator,
    ];
    let book = Book::new_with_items(sections);

    let should_be: Vec<_> = book.sections.iter().collect();

    let got = items_of(&book);

    assert_eq!(got, should_be);
}

#[test]
fn for_each_mut_visits_all_items() {
    let mut book = Book::new_with_items(nested_sections());

    let num_items = items_of(&book).len();
    let mut visited = 0;

    book.for_each_mut(|_| visited += 1);

    assert_eq!(visited, num_items);
}

#[test]
fn iterate_over_nested_book_items() {
    let book = Book::new_with_items(nested_sections());

    let got = items_of(&book);

    assert_eq!(got.len(), 5);

    let chapter_names: Vec<String> = got
        .into_iter()
        .filter_map(|i| match *i {
            BookItem::Chapter(ref ch) => Some(ch.name.clone()),
            _ => None,
        })
        .collect();
    let should_be: Vec<_> = vec![
        String::from("Chapter 1"),
        String::from("Hello World"),
        String::from("Goodbye World"),
    ];

    assert_eq!(chapter_names, should_be);
}

#[test]
fn section_number_empty_is_zero() {
    assert_eq!(SectionNumber(Vec::new()).to_string(), "0");
    assert_eq!(SectionNumber(vec![10, 205]).to_string(), "10.205.");
}

#[test]
fn chapter_display_includes_number() {
    let mut ch = Chapter::new("Intro", String::new(), "intro.md", Vec::new());
    assert_eq!(ch.to_string(), "Intro");
    ch.number = Some(SectionNumber(vec![1, 2]));
    assert_eq!(ch.to_string(), "1.2. Intro");
}

#[test]
fn draft_chapters_have_no_path() {
    let draft = Chapter::new_draft("Draft", vec![String::from("Parent")]);
    assert!(draft.is_draft_chapter());
    assert_eq!(draft.path, None);
    assert_eq!(draft.parent_names, vec![String::from("Parent")]);
    let ch = Chapter::new("Real", String::from("x"), "real.md", Vec::new());
    assert!(!ch.is_draft_chapter());
    assert_eq!(ch.source_path, Some(String::from("real.md")));
}

#[test]
fn for_each_mut_visits_nested_items_before_their_chapter() {
    let mut book = Book::new_with_items(nested_sections());
    let mut order = Vec::new();
    book.for_each_mut(|item| {
        if let BookItem::Chapter(ch) = item {
            order.push(ch.name.clone());
            ch.content.push_str("!");
        }
    });
    assert_eq!(order, vec!["Hello World", "Goodbye World", "Chapter 1"]);
    if let BookItem::Chapter(ch) = &book.sections[0] {
        assert_eq!(ch.content, "# Chapter 1!");
    } else {
        panic!("expected a chapter");
    }
}

#[test]
fn push_item_appends() {
    let mut book = Book::new();
    book.push_item(Chapter::new("A", String::new(), "a.md", Vec::new()))
        .push_item(BookItem::Separator);
    assert_eq!(book.sections.len(), 2);
    assert_eq!(book.sections[1], BookItem::Separator);
    assert_eq!(Book::default(), Book::new());
}
