use pdf_chapters::cli::{parse_args, usage, UsageError};

fn args(words: &[&str]) -> Vec<String> {
    words.iter().map(|w| w.to_string()).collect()
}

#[test]
fn input_alone_writes_to_the_current_directory() {
    let invocation = parse_args(&args(&["split", "book.pdf"])).unwrap();
    assert_eq!(invocation.input, "book.pdf");
    assert_eq!(invocation.output_dir, ".");
}

#[test]
fn second_argument_is_the_output_directory() {
    let invocation = parse_args(&args(&["split", "book.pdf", "out/chapters"])).unwrap();
    assert_eq!(invocation.input, "book.pdf");
    assert_eq!(invocation.output_dir, "out/chapters");
}

#[test]
fn further_arguments_are_ignored() {
    let invocation = parse_args(&args(&["split", "book.pdf", "out", "more"])).unwrap();
    assert_eq!(invocation.input, "book.pdf");
    assert_eq!(invocation.output_dir, "out");
}

#[test]
fn missing_input_is_a_usage_error() {
    assert_eq!(parse_args(&args(&["split"])).unwrap_err(), UsageError::MissingInput);
    assert_eq!(parse_args(&args(&[])).unwrap_err(), UsageError::MissingInput);
}

#[test]
fn usage_names_the_program() {
    assert_eq!(usage("split"), "Usage: split <pdf_file> [output_directory]");
}
