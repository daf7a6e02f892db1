//! The parsers and the compatibility engine of the packaging crates that this library
//! relies on, with what it assumes of them.
use vstd::prelude::*;

use std::str::FromStr;
use url::Url;
use uv_normalize::{InvalidNameError, PackageName};
use uv_pep440::{Version, VersionParseError};
use uv_platform_tags::{
    AbiTag, LanguageTag, ParseAbiTagError, ParseLanguageTagError, ParsePlatformTagError,
    PlatformTag, TagCompatibility, Tags,
};

verus! {

#[verifier::external_type_specification]
#[verifier::external_body]
pub struct ExInvalidNameError(InvalidNameError);

#[verifier::external_type_specification]
#[verifier::external_body]
pub struct ExVersion(Version);

/// Relies on `Version`'s `Clone`, which the record's derived `Clone` calls.
pub assume_specification[ <Version as Clone>::clone ](v: &Version) -> Version;

#[verifier::external_type_specification]
#[verifier::external_body]
pub struct ExVersionParseError(VersionParseError);

#[verifier::external_type_specification]
#[verifier::external_body]
pub struct ExLanguageTag(LanguageTag);

#[verifier::external_type_specification]
#[verifier::external_body]
pub struct ExAbiTag(AbiTag);

#[verifier::external_type_specification]
#[verifier::external_body]
pub struct ExPlatformTag(PlatformTag);

#[verifier::external_type_specification]
#[verifier::external_body]
pub struct ExParseLanguageTagError(ParseLanguageTagError);

#[verifier::external_type_specification]
#[verifier::external_body]
pub struct ExParseAbiTagError(ParseAbiTagError);

#[verifier::external_type_specification]
#[verifier::external_body]
pub struct ExParsePlatformTagError(ParsePlatformTagError);

#[verifier::external_type_specification]
#[verifier::external_body]
pub struct ExTags(Tags);

#[verifier::external_type_specification]
#[verifier::external_body]
pub struct ExTagCompatibility(TagCompatibility);

#[verifier::external_type_specification]
#[verifier::external_body]
pub struct ExUrl(Url);

/// The normalized form of a package name, where the text is a valid one.
pub uninterp spec fn normalized_name(s: Seq<char>) -> Option<Seq<char>>;

/// The canonical text of a version, where the text is a valid one.
pub uninterp spec fn version_text(s: Seq<char>) -> Option<Seq<char>>;

/// The canonical text of a language tag, where the text is a valid one.
pub uninterp spec fn language_tag_text(s: Seq<char>) -> Option<Seq<char>>;

/// The canonical text of an ABI tag, where the text is a valid one.
pub uninterp spec fn abi_tag_text(s: Seq<char>) -> Option<Seq<char>>;

/// The canonical text of a platform tag, where the text is a valid one.
pub uninterp spec fn platform_tag_text(s: Seq<char>) -> Option<Seq<char>>;

/// The text that `Display` writes for a version.
pub uninterp spec fn version_display(v: Version) -> Seq<char>;

/// The text that `Display` writes for a language tag.
pub uninterp spec fn language_tag_display(t: LanguageTag) -> Seq<char>;

/// The text that `Display` writes for an ABI tag.
pub uninterp spec fn abi_tag_display(t: AbiTag) -> Seq<char>;

/// The text that `Display` writes for a platform tag.
pub uninterp spec fn platform_tag_display(t: PlatformTag) -> Seq<char>;

/// Whether the supported tags accept some combination of a wheel's tags.
pub uninterp spec fn engine_accepts(
    tags: Tags,
    python: Seq<LanguageTag>,
    abi: Seq<AbiTag>,
    platform: Seq<PlatformTag>,
) -> bool;

/// How the supported tags rank the best combination of a wheel's tags.
pub uninterp spec fn engine_rank(
    tags: Tags,
    python: Seq<LanguageTag>,
    abi: Seq<AbiTag>,
    platform: Seq<PlatformTag>,
) -> TagCompatibility;

/// The text of a URL.
pub uninterp spec fn url_text_of(url: Url) -> Seq<char>;

/// The last segment of a URL's path: `None` where it has no path.
pub uninterp spec fn last_segment_of(url: Url) -> Option<Option<Seq<char>>>;

pub open spec fn segment_view(last: Option<Option<String>>) -> Option<Option<Seq<char>>> {
    match last {
        None => None,
        Some(None) => Some(None),
        Some(Some(s)) => Some(Some(s@)),
    }
}

/// Relies on `PackageName::from_str`, which validates a package name and normalizes it; the
/// result is the normalized name as text (`PackageName::as_str`).
#[verifier::external_body]
pub(crate) fn parse_package_name(s: &str) -> (r: Result<String, InvalidNameError>)
    ensures
        match r {
            Ok(n) => normalized_name(s@) == Some(n@),
            Err(_) => normalized_name(s@) is None,
        },
{
    match PackageName::from_str(s) {
        Ok(n) => Ok(n.as_str().to_string()),
        Err(e) => Err(e),
    }
}

/// Relies on `Version::from_str` to parse a version; the version comes back with its
/// canonical text, as its `Display` writes it.
#[verifier::external_body]
pub(crate) fn parse_version(s: &str) -> (r: Result<(Version, String), VersionParseError>)
    ensures
        match r {
            Ok(v) => version_text(s@) == Some(v.1@) && v.1@ == version_display(v.0),
            Err(_) => version_text(s@) is None,
        },
{
    match Version::from_str(s) {
        Ok(v) => {
            let text = v.to_string();
            Ok((v, text))
        },
        Err(e) => Err(e),
    }
}

/// Relies on `LanguageTag::from_str` to parse a language tag; the tag comes back with its
/// text, as its `Display` writes it.
#[verifier::external_body]
pub(crate) fn parse_language_tag(s: &str) -> (r: Result<(LanguageTag, String), ParseLanguageTagError>)
    ensures
        match r {
            Ok(t) => language_tag_text(s@) == Some(t.1@) && t.1@ == language_tag_display(t.0),
            Err(_) => language_tag_text(s@) is None,
        },
{
    match LanguageTag::from_str(s) {
        Ok(t) => Ok((t, t.to_string())),
        Err(e) => Err(e),
    }
}

/// Relies on `AbiTag::from_str` to parse an ABI tag; the tag comes back with its text, as its
/// `Display` writes it.
#[verifier::external_body]
pub(crate) fn parse_abi_tag(s: &str) -> (r: Result<(AbiTag, String), ParseAbiTagError>)
    ensures
        match r {
            Ok(t) => abi_tag_text(s@) == Some(t.1@) && t.1@ == abi_tag_display(t.0),
            Err(_) => abi_tag_text(s@) is None,
        },
{
    match AbiTag::from_str(s) {
        Ok(t) => Ok((t, t.to_string())),
        Err(e) => Err(e),
    }
}

/// Relies on `PlatformTag::from_str` to parse a platform tag; the tag comes back with its
/// text, as its `Display` writes it.
#[verifier::external_body]
pub(crate) fn parse_platform_tag(s: &str) -> (r: Result<(PlatformTag, String), ParsePlatformTagError>)
    ensures
        match r {
            Ok(t) => platform_tag_text(s@) == Some(t.1@) && t.1@ == platform_tag_display(t.0),
            Err(_) => platform_tag_text(s@) is None,
        },
{
    match PlatformTag::from_str(s) {
        Ok(t) => {
            let text = t.to_string();
            Ok((t, text))
        },
        Err(e) => Err(e),
    }
}

/// Relies on `Tags::is_compatible`: whether some combination of the wheel's tags is supported.
#[verifier::external_body]
pub(crate) fn tags_accept(
    tags: &Tags,
    python: &Vec<LanguageTag>,
    abi: &Vec<AbiTag>,
    platform: &Vec<PlatformTag>,
) -> (r: bool)
    ensures
        r == engine_accepts(*tags, python@, abi@, platform@),
{
    tags.is_compatible(python, abi, platform)
}

/// Relies on `Tags::compatibility`: the rank of the best supported combination of the wheel's
/// tags, or why none is supported.
#[verifier::external_body]
pub(crate) fn tags_rank(
    tags: &Tags,
    python: &Vec<LanguageTag>,
    abi: &Vec<AbiTag>,
    platform: &Vec<PlatformTag>,
) -> (r: TagCompatibility)
    ensures
        r == engine_rank(*tags, python@, abi@, platform@),
{
    tags.compatibility(python, abi, platform)
}

/// Relies on `Url`'s `Display`: the URL as text.
#[verifier::external_body]
pub(crate) fn url_text(url: &Url) -> (r: String)
    ensures
        r@ == url_text_of(*url),
{
    url.to_string()
}

/// Relies on `Url::path_segments`: `None` where the URL has no path, else its last segment.
#[verifier::external_body]
pub(crate) fn url_last_segment(url: &Url) -> (r: Option<Option<String>>)
    ensures
        segment_view(r) == last_segment_of(*url),
{
    url.path_segments().map(|segments| segments.last().map(|s| s.to_string()))
}

/// Relies on the `Display` of `VersionParseError`.
#[verifier::external_body]
pub(crate) fn version_error_text(e: &VersionParseError) -> String {
    e.to_string()
}

/// Relies on the `Display` of `ParseLanguageTagError`.
#[verifier::external_body]
pub(crate) fn language_tag_error_text(e: &ParseLanguageTagError) -> String {
    e.to_string()
}

/// Relies on the `Display` of `ParseAbiTagError`.
#[verifier::external_body]
pub(crate) fn abi_tag_error_text(e: &ParseAbiTagError) -> String {
    e.to_string()
}

/// Relies on the `Display` of `ParsePlatformTagError`.
#[verifier::external_body]
pub(crate) fn platform_tag_error_text(e: &ParsePlatformTagError) -> String {
    e.to_string()
}

} // verus!
