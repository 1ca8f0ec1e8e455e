use diffuzzer::markdown::Markdown;

    #[test]
    fn test_heading() {
        let mut md = Markdown::new("some\ntitle".to_owned());
        md.heading("some\nheading".to_owned());
        let expected = r#"
some title
==========

some heading
------------

"#
        .trim_start();
        assert_eq!(expected.to_owned(), md.to_string());
    }

    #[test]
    fn test_paragraph() {
        let mut md = Markdown::new("foobar".to_owned());
        md.paragraph("\nfirst para\nsecond para\n".to_owned());
        let expected = r#"
foobar
======

first para

second para

"#
        .trim_start();
        assert_eq!(expected.to_owned(), md.to_string());
    }
