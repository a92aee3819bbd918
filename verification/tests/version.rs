use palm_beach_county_appraiser_fl::version::VERSION;

#[test]
fn version_is_semver_like() {
    let parts: Vec<&str> = VERSION.split('.').collect();
    assert!(parts.len() >= 2, "expected semver-like version: {VERSION}");
    assert!(parts[0].parse::<u32>().is_ok());
}
