use orisa::api::ApiError;
use orisa::host::HostError;
use orisa::package::PackageError;
use orisa::state::Error;
use orisa::types::{Id, IdError};
use orisa::value::ConversionError;

#[test]
fn graph_errors_name_the_object() {
    assert_eq!(Error::InvalidObjectId(Id(12)).to_string(), "Invalid object Id #12");
    assert_eq!(Error::CyclicHierarchy.to_string(), "An object cannot be put inside itself");
}

#[test]
fn refusals_are_told_in_words() {
    let told = [
        (ApiError::State(Error::InvalidObjectId(Id(3))), "Invalid object Id #3"),
        (ApiError::MutationDuringQuery, "Unable to set/send during a query."),
        (ApiError::NestedQuery, "You currently can't run a query from a query, sorry."),
        (ApiError::SetOtherState, "Can only set your own state."),
        (ApiError::GetOtherState, "Can only get your own state."),
        (ApiError::SetOtherAttr, "Can only set your own attrs."),
        (ApiError::Package(PackageError::InvalidReference), "invalid object kind"),
        (ApiError::NotYourPackage, "You can only write to live packages named $username/live.something"),
        (ApiError::MoveNotAllowed, "only something in the same room or the object itself can move an object"),
        (ApiError::DelayTooShort, "Delay expected to be > 1 second"),
        (ApiError::UnsupportedRepo, "Only the system or live repos are currently supported."),
        (ApiError::PackageNotFound, "Can't find local package"),
        (ApiError::NotSystemPackage, "Package is not a system package"),
    ];
    for (error, text) in told.iter() {
        assert_eq!(error.to_string(), *text);
    }
}

#[test]
fn reading_errors_are_told_in_words() {
    assert_eq!(IdError::NotAString.to_string(), "Expected a string for an object id");
    assert_eq!(IdError::MissingMarker.to_string(), "Invalid object id");
    assert_eq!(IdError::InvalidIndex.to_string(), "Invalid object index");
    assert_eq!(PackageError::InvalidReference.to_string(), "invalid object kind");
    assert_eq!(PackageError::NotAString.to_string(), "Expected a string for an object kind");
    assert_eq!(HostError::NotSystemPackage.to_string(), "Package is not a system package");
    assert_eq!(HostError::OutsideRoot.to_string(), "Can't require outside of root");
}

#[test]
fn conversion_errors_name_the_kind_of_value() {
    assert_eq!(ConversionError::Function.from_name(), "function");
    assert_eq!(ConversionError::UserData.from_name(), "userdata");
    assert_eq!(ConversionError::LightUserData.from_name(), "light userdata");
    assert_eq!(ConversionError::Thread.from_name(), "thread");
    assert_eq!(ConversionError::Error.from_name(), "error");
    assert_eq!(ConversionError::Bytes.from_name(), "string");
}
