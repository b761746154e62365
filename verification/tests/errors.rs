use cfg_matrix::error::{MatrixError, ParseSite};
use cfg_matrix::syntax::fault_at;

fn rejected() -> Result<(), syn::Error> {
    match syn::parse_str::<syn::Meta>("(") {
        Ok(_) => Ok(()),
        Err(error) => Err(error),
    }
}

#[test]
fn an_accepted_text_is_no_fault() {
    assert_eq!(fault_at(Ok(()), ParseSite::Predicate(3)), Ok(()));
}

#[test]
fn a_rejected_text_is_a_parse_error_at_its_site() {
    assert!(rejected().is_err());
    assert_eq!(
        fault_at(rejected(), ParseSite::Predicate(3)),
        Err(MatrixError::Parse { site: ParseSite::Predicate(3) })
    );
    assert_eq!(
        fault_at(rejected(), ParseSite::Template),
        Err(MatrixError::Parse { site: ParseSite::Template })
    );
}

#[test]
fn configuration_message_names_the_limit_and_the_count() {
    assert_eq!(
        MatrixError::Configuration { count: 5 }.message(),
        "expected 1 to 4 flags, found 5"
    );
    assert_eq!(
        MatrixError::Configuration { count: 0 }.message(),
        "expected 1 to 4 flags, found 0"
    );
    assert_eq!(
        MatrixError::Configuration { count: 123 }.message(),
        "expected 1 to 4 flags, found 123"
    );
}

#[test]
fn parse_message_names_the_flag_and_the_part() {
    assert_eq!(
        MatrixError::Parse { site: ParseSite::Capability(2) }.message(),
        "flag 2: the capability is not a trait bound"
    );
    assert_eq!(
        MatrixError::Parse { site: ParseSite::Predicate(0) }.message(),
        "flag 0: the predicate is not a cfg condition"
    );
    assert_eq!(
        MatrixError::Parse { site: ParseSite::Template }.message(),
        "the template is not a trait definition"
    );
    assert_eq!(ParseSite::Predicate(10).message(), "flag 10: the predicate is not a cfg condition");
}

#[test]
fn internal_message_names_the_variant() {
    assert_eq!(
        MatrixError::InternalInvariant { mask: 13 }.message(),
        "variant 13 came out malformed"
    );
}
