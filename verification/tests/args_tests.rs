use logistic_regression::args::argument_check;
use logistic_regression::args::UsageError;
use logistic_regression::args::ARGS_SIZE_LIMIT;

fn line(words: &[&str]) -> Vec<String> {
    words.iter().map(|word| word.to_string()).collect()
}

#[test]
fn arguments_with_a_path_pass() {
    assert_eq!(argument_check(&line(&["prog", "data.txt"])), Ok(()));
}

#[test]
fn arguments_beyond_the_path_are_ignored() {
    assert_eq!(argument_check(&line(&["prog", "data.txt", "more", ""])), Ok(()));
}

#[test]
fn arguments_without_a_path_fail() {
    assert_eq!(argument_check(&line(&["prog"])), Err(UsageError::NotEnoughArguments));
    assert_eq!(argument_check(&line(&[])), Err(UsageError::NotEnoughArguments));
}

#[test]
fn arguments_with_an_empty_path_fail() {
    assert_eq!(argument_check(&line(&["prog", ""])), Err(UsageError::EmptyFilename));
    assert_eq!(argument_check(&line(&["", "", "x"])), Err(UsageError::EmptyFilename));
}

#[test]
fn arguments_with_an_empty_program_name_pass() {
    assert_eq!(argument_check(&line(&["", "data.txt"])), Ok(()));
}

#[test]
fn usage_error_messages() {
    assert_eq!(UsageError::NotEnoughArguments.message(), "not enough input argument");
    assert_eq!(UsageError::EmptyFilename.message(), "filename is empty");
}

#[test]
fn argument_limit_counts_the_program_name() {
    assert_eq!(ARGS_SIZE_LIMIT, 2);
}
