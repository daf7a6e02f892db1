use std::str::FromStr;

use uv_platform_tags::{AbiTag, Arch, LanguageTag, Os, Platform, PlatformTag, Tags, TagsOptions};
use wheel_filename::build_tag::{BuildTag, BuildTagError};
use wheel_filename::wheel::{WheelFilename, WheelFilenameError};

fn texts(v: &[&str]) -> Vec<String> {
    v.iter().map(|s| s.to_string()).collect()
}

#[test]
fn err_not_whl_extension() {
    let err = WheelFilename::from_str("foo.rs").unwrap_err();
    assert_eq!(
        err.message(),
        "The wheel filename \"foo.rs\" is invalid: Must end with .whl"
    );
}

#[test]
fn err_1_part_empty() {
    let err = WheelFilename::from_str(".whl").unwrap_err();
    assert_eq!(
        err.message(),
        "The wheel filename \".whl\" is invalid: Must have a version"
    );
}

#[test]
fn err_1_part_no_version() {
    let err = WheelFilename::from_str("foo.whl").unwrap_err();
    assert_eq!(
        err.message(),
        "The wheel filename \"foo.whl\" is invalid: Must have a version"
    );
}

#[test]
fn err_2_part_no_pythontag() {
    let err = WheelFilename::from_str("foo-1.2.3.whl").unwrap_err();
    assert_eq!(
        err.message(),
        "The wheel filename \"foo-1.2.3.whl\" is invalid: Must have a Python tag"
    );
}

#[test]
fn err_3_part_no_abitag() {
    let err = WheelFilename::from_str("foo-1.2.3-py3.whl").unwrap_err();
    assert_eq!(
        err.message(),
        "The wheel filename \"foo-1.2.3-py3.whl\" is invalid: Must have an ABI tag"
    );
}

#[test]
fn err_4_part_no_platformtag() {
    let err = WheelFilename::from_str("foo-1.2.3-py3-none.whl").unwrap_err();
    assert_eq!(
        err.message(),
        "The wheel filename \"foo-1.2.3-py3-none.whl\" is invalid: Must have a platform tag"
    );
}

#[test]
fn err_too_many_parts() {
    let err =
        WheelFilename::from_str("foo-1.2.3-202206090410-py3-none-any-whoops.whl").unwrap_err();
    assert_eq!(
        err.message(),
        "The wheel filename \"foo-1.2.3-202206090410-py3-none-any-whoops.whl\" is invalid: Must have 5 or 6 components, but has more"
    );
}

#[test]
fn err_invalid_package_name() {
    let err = WheelFilename::from_str("f!oo-1.2.3-py3-none-any.whl").unwrap_err();
    assert_eq!(
        err.message(),
        "The wheel filename \"f!oo-1.2.3-py3-none-any.whl\" has an invalid package name"
    );
}

#[test]
fn err_invalid_version() {
    let err = WheelFilename::from_str("foo-x.y.z-py3-none-any.whl").unwrap_err();
    assert_eq!(
        err.message(),
        "The wheel filename \"foo-x.y.z-py3-none-any.whl\" has an invalid version: expected version to start with a number, but no leading ASCII digits were found"
    );
}

#[test]
fn err_invalid_build_tag() {
    let err = WheelFilename::from_str("foo-1.2.3-tag-py3-none-any.whl").unwrap_err();
    assert_eq!(
        err.message(),
        "The wheel filename \"foo-1.2.3-tag-py3-none-any.whl\" has an invalid build tag: must start with a digit"
    );
}

#[test]
fn ok_single_tags() {
    let w = WheelFilename::from_str("foo-1.2.3-py3-none-any.whl").unwrap();
    assert_eq!(w.name, "foo");
    assert_eq!(w.version, "1.2.3");
    assert_eq!(w.build_tag, None);
    assert_eq!(w.python_tag, texts(&["py3"]));
    assert_eq!(w.abi_tag, texts(&["none"]));
    assert_eq!(w.platform_tag, texts(&["any"]));
    assert_eq!(w.python_values, vec![LanguageTag::from_str("py3").unwrap()]);
    assert_eq!(w.abi_values, vec![AbiTag::from_str("none").unwrap()]);
    assert_eq!(w.platform_values, vec![PlatformTag::from_str("any").unwrap()]);
}

#[test]
fn ok_multiple_tags() {
    let w = WheelFilename::from_str(
        "foo-1.2.3-cp311-cp311-manylinux_2_17_x86_64.manylinux2014_x86_64.whl",
    )
    .unwrap();
    assert_eq!(w.name, "foo");
    assert_eq!(w.version, "1.2.3");
    assert_eq!(w.build_tag, None);
    assert_eq!(w.python_tag, texts(&["cp311"]));
    assert_eq!(w.abi_tag, texts(&["cp311"]));
    assert_eq!(
        w.platform_tag,
        texts(&["manylinux_2_17_x86_64", "manylinux2014_x86_64"])
    );
    assert_eq!(w.platform_values.len(), 2);
}

#[test]
fn ok_build_tag() {
    let w = WheelFilename::from_str("foo-1.2.3-202206090410-py3-none-any.whl").unwrap();
    assert_eq!(w.name, "foo");
    assert_eq!(w.version, "1.2.3");
    assert_eq!(
        w.build_tag,
        Some(BuildTag {
            number: 202206090410,
            suffix: String::new()
        })
    );
    assert_eq!(w.python_tag, texts(&["py3"]));
    assert_eq!(w.abi_tag, texts(&["none"]));
    assert_eq!(w.platform_tag, texts(&["any"]));
}

#[test]
fn from_and_to_string() {
    let wheel_names = &[
        "django_allauth-0.51.0-py3-none-any.whl",
        "osm2geojson-0.2.4-py3-none-any.whl",
        "numpy-1.26.2-cp311-cp311-manylinux_2_17_x86_64.manylinux2014_x86_64.whl",
    ];
    for wheel_name in wheel_names {
        assert_eq!(
            WheelFilename::from_str(wheel_name).unwrap().to_string(),
            *wheel_name
        );
    }
}

#[test]
fn round_trip_with_build_tag() {
    let name = "foo-1.2.3-7abc-py3-none-any.whl";
    let w = WheelFilename::from_str(name).unwrap();
    assert_eq!(
        w.build_tag,
        Some(BuildTag {
            number: 7,
            suffix: "abc".to_string()
        })
    );
    assert_eq!(w.to_string(), name);
    assert_eq!(WheelFilename::from_str(&w.to_string()).unwrap(), w);
}

#[test]
fn extension_required_whatever_the_content() {
    for input in ["foo-1.2.3-py3-none-any", "foo-1.2.3-py3-none-any.WHL", "", "whl", "a.whl.zip"] {
        let err = WheelFilename::from_str(input).unwrap_err();
        assert!(matches!(err, WheelFilenameError::MissingExtension(ref s) if s == input));
    }
}

#[test]
fn segment_count_six_is_build_tag_five_is_not() {
    let five = WheelFilename::from_str("foo-1.2.3-py3-none-any.whl").unwrap();
    assert_eq!(five.build_tag, None);
    let six = WheelFilename::from_str("foo-1.2.3-202206090410-py3-none-any.whl").unwrap();
    assert_eq!(six.build_tag.unwrap().number, 202206090410);
    let seven = WheelFilename::from_str("a-1-2-3-4-5-6.whl").unwrap_err();
    assert!(matches!(seven, WheelFilenameError::TooManyComponents(_)));
}

#[test]
fn numeric_python_tag_is_not_a_build_tag() {
    // With five segments the third one is the Python tag, even when it looks like a number.
    let err = WheelFilename::from_str("foo-1.2.3-3-none-any.whl").unwrap_err();
    assert!(matches!(err, WheelFilenameError::InvalidLanguageTag(..)));
}

#[test]
fn single_tags_render_without_dots() {
    let w = WheelFilename::from_str("foo-1.0-cp311-cp311-linux_x86_64.whl").unwrap();
    assert_eq!(w.stem(), "foo-1.0-cp311-cp311-linux_x86_64");
    let multi = WheelFilename::from_str(
        "numpy-1.26.2-cp311-cp311-manylinux_2_17_x86_64.manylinux2014_x86_64.whl",
    )
    .unwrap();
    assert_eq!(
        multi.stem(),
        "numpy-1.26.2-cp311-cp311-manylinux_2_17_x86_64.manylinux2014_x86_64"
    );
}

#[test]
fn multiple_python_tags() {
    let w = WheelFilename::from_str("six-1.16.0-py2.py3-none-any.whl").unwrap();
    assert_eq!(w.python_tag, texts(&["py2", "py3"]));
    assert_eq!(w.to_string(), "six-1.16.0-py2.py3-none-any.whl");
}

#[test]
fn name_is_normalized_and_rendered_with_underscores() {
    let w = WheelFilename::from_str("Django_AllAuth-0.51.0-py3-none-any.whl").unwrap();
    assert_eq!(w.name, "django-allauth");
    assert_eq!(w.to_string(), "django_allauth-0.51.0-py3-none-any.whl");
}

#[test]
fn version_is_canonical() {
    let w = WheelFilename::from_str("foo-1.02-py3-none-any.whl").unwrap();
    assert_eq!(w.version, "1.2");
    assert_eq!(w.stem(), "foo-1.2-py3-none-any");
}

#[test]
fn invalid_tags_are_reported_by_field() {
    let err = WheelFilename::from_str("foo-1.0-py3.xyz-none-any.whl").unwrap_err();
    assert!(matches!(err, WheelFilenameError::InvalidLanguageTag(..)));
    assert!(err
        .message()
        .starts_with("The wheel filename \"foo-1.0-py3.xyz-none-any.whl\" has an invalid language tag: "));
    let err = WheelFilename::from_str("foo-1.0-py3-qq-any.whl").unwrap_err();
    assert!(matches!(err, WheelFilenameError::InvalidAbiTag(..)));
    let err = WheelFilename::from_str("foo-1.0-py3-none-any.nope.whl").unwrap_err();
    assert!(matches!(err, WheelFilenameError::InvalidPlatformTag(..)));
    let err = WheelFilename::from_str("foo-1.0-py3-none-.whl").unwrap_err();
    assert!(matches!(err, WheelFilenameError::InvalidPlatformTag(..)));
}

#[test]
fn errors_carry_the_original_input() {
    let err = WheelFilename::from_str("foo-1.2.3-py3.whl").unwrap_err();
    assert!(matches!(err, WheelFilenameError::MissingAbiTag(ref s) if s == "foo-1.2.3-py3.whl"));
}

#[test]
fn from_stem_skips_the_extension() {
    let w = WheelFilename::from_stem("foo-1.2.3-py3-none-any").unwrap();
    assert_eq!(w.to_string(), "foo-1.2.3-py3-none-any.whl");
    let err = WheelFilename::from_stem("foo-1.2.3").unwrap_err();
    assert_eq!(
        err.message(),
        "The wheel filename \"foo-1.2.3\" is invalid: Must have a Python tag"
    );
}

#[test]
fn from_url_uses_last_segment() {
    let url = url::Url::parse("https://example.org/files/foo-1.2.3-py3-none-any.whl").unwrap();
    let w = WheelFilename::from_url(&url).unwrap();
    assert_eq!(w.name, "foo");
    let url = url::Url::parse("https://example.org/files/foo.zip").unwrap();
    let err = WheelFilename::from_url(&url).unwrap_err();
    assert!(matches!(
        err,
        WheelFilenameError::MissingExtension(ref s) if s == "https://example.org/files/foo.zip"
    ));
    let url = url::Url::parse("https://example.org/files/foo-1.2.3-tag-py3-none-any.whl").unwrap();
    let err = WheelFilename::from_url(&url).unwrap_err();
    assert!(matches!(err, WheelFilenameError::InvalidBuildTag(_, BuildTagError::NoLeadingDigit)));
    assert_eq!(
        err.message(),
        "The wheel filename \"https://example.org/files/foo-1.2.3-tag-py3-none-any.whl\" has an invalid build tag: must start with a digit"
    );
}

#[test]
fn from_url_without_path() {
    let url = url::Url::parse("mailto:someone@example.org").unwrap();
    let err = WheelFilename::from_url(&url).unwrap_err();
    assert!(matches!(err, WheelFilenameError::MissingUrlPath(_)));
    let err = WheelFilename::from_url_parts("https://x.org", Some(None)).unwrap_err();
    assert_eq!(
        err.message(),
        "The wheel filename \"https://x.org\" is invalid: URL must contain a filename"
    );
    let err = WheelFilename::from_url_parts("mailto:a@b", None).unwrap_err();
    assert_eq!(
        err.message(),
        "The wheel filename \"mailto:a@b\" is invalid: URL must have a path"
    );
}

#[test]
fn build_tag_parsing() {
    assert_eq!(BuildTag::parse(""), Err(BuildTagError::Empty));
    assert_eq!(BuildTag::parse("tag"), Err(BuildTagError::NoLeadingDigit));
    assert_eq!(
        BuildTag::parse("99999999999999999999"),
        Err(BuildTagError::Overflow)
    );
    assert_eq!(
        BuildTag::parse("18446744073709551615"),
        Ok(BuildTag {
            number: u64::MAX,
            suffix: String::new()
        })
    );
    let b = BuildTag::parse("0042x1").unwrap();
    assert_eq!(b.number, 42);
    assert_eq!(b.suffix, "x1");
    assert_eq!(b.text(), "42x1");
    assert_eq!(BuildTagError::Overflow.message(), "number too large to fit in target type");
}

#[test]
fn records_compare_by_value() {
    let a = WheelFilename::from_str("foo-1.2.3-py3-none-any.whl").unwrap();
    let b = WheelFilename::from_stem("foo-1.2.3-py3-none-any").unwrap();
    assert_eq!(a, b);
    let c = WheelFilename::from_str("foo-1.2.4-py3-none-any.whl").unwrap();
    assert_ne!(a, c);
}

#[test]
fn compatibility_with_supported_tags() {
    let platform = Platform::new(Os::Manylinux { major: 2, minor: 28 }, Arch::X86_64);
    let options = TagsOptions {
        manylinux_compatible: true,
        ..TagsOptions::default()
    };
    let tags = Tags::from_env(&platform, (3, 11), "cpython", (3, 11), options).unwrap();
    let pure = WheelFilename::from_str("foo-1.0-py3-none-any.whl").unwrap();
    assert!(pure.is_compatible(&tags));
    assert!(pure.compatibility(&tags).is_compatible());
    let native = WheelFilename::from_str(
        "numpy-1.26.2-cp311-cp311-manylinux_2_17_x86_64.manylinux2014_x86_64.whl",
    )
    .unwrap();
    assert!(native.is_compatible(&tags));
    let windows = WheelFilename::from_str("foo-1.0-cp311-cp311-win_amd64.whl").unwrap();
    assert!(!windows.is_compatible(&tags));
    assert!(!windows.compatibility(&tags).is_compatible());
}

#[test]
fn records_order_by_version_value() {
    let older = WheelFilename::from_str("foo-1.9-py3-none-any.whl").unwrap();
    let newer = WheelFilename::from_str("foo-1.10-py3-none-any.whl").unwrap();
    assert!(older < newer);
    assert_eq!(newer.version_value, uv_pep440::Version::from_str("1.10").unwrap());
}

#[test]
fn invalid_build_tag_wraps_the_parser_error() {
    let err = WheelFilename::from_str("foo-1.2.3-tag-py3-none-any.whl").unwrap_err();
    assert!(matches!(
        err,
        WheelFilenameError::InvalidBuildTag(ref f, BuildTagError::NoLeadingDigit)
            if f == "foo-1.2.3-tag-py3-none-any.whl"
    ));
    let err = WheelFilename::from_str("foo-1.2.3-99999999999999999999-py3-none-any.whl").unwrap_err();
    assert!(matches!(err, WheelFilenameError::InvalidBuildTag(_, BuildTagError::Overflow)));
}
