use permute_compile::load::{EmptyNameError, FileKind, LoadError, LoadProjectDir, MainLoadError};
use permute_compile::naming::{NameError, ToNamed, Unnamed};
use permute_compile::pipe::Pipe;
use permute_compile::samples::{InvalidMonetaryParts, Monetary, RowSequence};

#[test]
fn monetary_parts() {
    let m = Monetary::new(12, 99).unwrap();
    assert_eq!(m.dollar(), 12);
    assert_eq!(m.cent(), 99);
    assert_eq!(Monetary::new(1, 100), Err(InvalidMonetaryParts));
    assert_eq!(Monetary::new(0, 255), Err(InvalidMonetaryParts));
    assert_eq!(Monetary::new(u32::MAX, 0).unwrap().dollar(), u32::MAX);
}

#[test]
fn row_sequence_counts_up() {
    let mut rows = RowSequence::new(7);
    assert_eq!(rows.advance(), 7);
    assert_eq!(rows.advance(), 8);
    let mut from_zero = RowSequence::default();
    assert_eq!(from_zero.advance(), 0);
}

#[test]
fn pipe_parses_two_sides() {
    let p = Pipe::parse("  source_a ->  sink_b ").unwrap();
    assert_eq!(p.input(), "source_a");
    assert_eq!(p.output(), "sink_b");
    let tight = Pipe::parse("a->b").unwrap();
    assert_eq!((tight.input(), tight.output()), ("a", "b"));
    let empty = Pipe::parse("->").unwrap();
    assert_eq!((empty.input(), empty.output()), ("", ""));
}

#[test]
fn pipe_needs_exactly_one_arrow() {
    assert_eq!(Pipe::parse("a").unwrap_err().0, "a");
    assert_eq!(Pipe::parse("").unwrap_err().0, "");
    assert_eq!(Pipe::parse("a -> b -> c").unwrap_err().0, "a -> b -> c");
    assert!(Pipe::parse("a - > b").is_err());
    assert!(Pipe::parse("a => b").is_err());
}

#[derive(Debug, PartialEq)]
struct Named(String);

impl ToNamed for Named {
    fn to_named(this: Unnamed<Self>, name: String) -> Result<Self, NameError<Self>> {
        if name.is_empty() {
            Err(NameError(name, this.into_inner()))
        } else {
            Ok(Named(name))
        }
    }
}

#[test]
fn unnamed_takes_a_name() {
    let named = Unnamed::new(Named(String::new())).to_named("file".to_string()).unwrap();
    assert_eq!(named, Named("file".to_string()));
    let err = Unnamed::new(Named("kept".to_string())).to_named(String::new()).unwrap_err();
    assert_eq!(err.1, Named("kept".to_string()));
}

#[test]
fn project_path_is_validated() {
    let dir = LoadProjectDir { path: "samples/example1".to_string() };
    assert!(dir.validate_path(true, true).is_ok());
    assert!(matches!(dir.validate_path(false, false), Err(LoadError::PathDoesNotExist(p)) if p == "samples/example1"));
    assert!(matches!(dir.validate_path(true, false), Err(LoadError::PathIsNotDir(p)) if p == "samples/example1"));
    assert_eq!(LoadProjectDir::MAIN_FILE_NAME, "main.yaml");
}

#[test]
fn main_file_must_exist() {
    assert_eq!(LoadProjectDir::check_main("p/main.yaml".to_string(), true).unwrap(), "p/main.yaml");
    assert!(matches!(
        LoadProjectDir::check_main("p/main.yaml".to_string(), false),
        Err(MainLoadError::NotFound(p)) if p == "p/main.yaml"
    ));
}

#[test]
fn errors_and_kinds() {
    let e = LoadError::EmptyName(EmptyNameError);
    assert!(matches!(e, LoadError::EmptyName(EmptyNameError)));
    assert_ne!(FileKind::Main, FileKind::Sink);
    assert_eq!(FileKind::Source, FileKind::Source);
}

#[test]
fn pipe_trims_unicode_white_space() {
    let p = Pipe::parse("\u{3000}in\u{a0}\t->\n out\u{2029}").unwrap();
    assert_eq!(p.input(), "in");
    assert_eq!(p.output(), "out");
    let inner = Pipe::parse(" a b -> c  d ").unwrap();
    assert_eq!((inner.input(), inner.output()), ("a b", "c  d"));
}
