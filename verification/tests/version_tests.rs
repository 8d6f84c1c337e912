use rustc_auto_publish::version::{
    get_current_version, get_version_to_publish, next_version, u64_to_string, version_to_string,
    Version,
};
use rustc_auto_publish::Error;

#[test]
fn reported_version_bumps_only_the_major() {
    let r = get_version_to_publish(200, Some(Version { major: 3, minor: 5, patch: 7 }));
    assert_eq!(r, Ok(Version { major: 4, minor: 5, patch: 7 }));
}

#[test]
fn not_found_yields_one_zero_zero() {
    assert_eq!(get_version_to_publish(404, None), Ok(Version { major: 1, minor: 0, patch: 0 }));
}

#[test]
fn not_found_current_version_is_zero() {
    assert_eq!(get_current_version(404, None), Ok(Version { major: 0, minor: 0, patch: 0 }));
}

#[test]
fn unexpected_status_is_fatal() {
    assert_eq!(get_version_to_publish(500, None), Err(Error::UnexpectedRegistryStatus));
}

#[test]
fn ok_status_without_a_version_is_fatal() {
    assert_eq!(get_version_to_publish(200, None), Err(Error::MalformedRegistryResponse));
}

#[test]
fn next_version_passes_minor_and_patch_through() {
    let v = next_version(&Version { major: 0, minor: 22, patch: 1 });
    assert_eq!(v, Version { major: 1, minor: 22, patch: 1 });
}

#[test]
fn versions_render_as_dotted_decimals() {
    assert_eq!(version_to_string(&Version { major: 4, minor: 5, patch: 7 }), "4.5.7");
    assert_eq!(version_to_string(&Version { major: 1, minor: 0, patch: 0 }), "1.0.0");
    assert_eq!(u64_to_string(0), "0");
    assert_eq!(u64_to_string(1234567890), "1234567890");
}
