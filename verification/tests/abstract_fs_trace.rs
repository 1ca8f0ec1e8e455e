use diffuzzer::abstract_fs::trace::{Errno, Trace, TraceError, TraceRow};

    #[test]
    fn test_empty_trace() {
        assert_eq!(Err(TraceError::Empty), Trace::try_parse("".to_owned()))
    }

    #[test]
    fn test_header_only() {
        assert_eq!(
            Ok(Trace { rows: vec![] }),
            Trace::try_parse("Index,Command,ReturnCode,Errno\n".to_owned())
        )
    }

    #[test]
    fn test_invalid_columns_count() {
        let trace = r#"
Index,Command,ReturnCode,Errno,Extra
    1,    Foo,        42,Success(0),a=1, ???
    2,    Bar,        -1,Error(42),b=2
"#
        .trim();
        assert_eq!(
            Err(TraceError::InvalidColumnNumber),
            Trace::try_parse(trace.to_owned())
        )
    }

    #[test]
    fn test_ok_trace() {
        let trace = r#"
Index,Command,ReturnCode,Errno,Extra
    1,    Foo,        42,Success(0),a=1
    2,    Bar,        -1,Error(42),b=2
"#
        .trim();
        assert_eq!(
            Ok(Trace {
                rows: vec![
                    TraceRow {
                        index: 1,
                        command: "Foo".to_owned(),
                        return_code: 42,
                        errno: Errno {
                            name: "Success".to_owned(),
                            code: 0
                        },
                        extra: "a=1".to_owned()
                    },
                    TraceRow {
                        index: 2,
                        command: "Bar".to_owned(),
                        return_code: -1,
                        errno: Errno {
                            name: "Error".to_owned(),
                            code: 42
                        },
                        extra: "b=2".to_owned()
                    },
                ]
            }),
            Trace::try_parse(trace.to_owned())
        )
    }

    #[test]
    fn test_invalid_errno_no_brackets() {
        let trace = r#"
        Index,Command,ReturnCode,Errno,Extra
            1,    Foo,        42,Success 0,a=1
            2,    Bar,        -1,Error(42),b=2
        "#
        .trim();
        assert_eq!(
            Err(TraceError::InvalidErrno("Success 0".to_owned())),
            Trace::try_parse(trace.to_owned())
        )
    }
