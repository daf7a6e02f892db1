//! The wheel filename record: `{name}-{version}[-{build tag}]-{python tag}-{abi tag}-{platform tag}.whl`.
use vstd::prelude::*;

use url::Url;
use uv_normalize::InvalidNameError;
use uv_pep440::{Version, VersionParseError};
use uv_platform_tags::{
    AbiTag, LanguageTag, ParseAbiTagError, ParseLanguageTagError, ParsePlatformTagError,
    PlatformTag, TagCompatibility, Tags,
};

use crate::build_tag::{
    build_tag_spec, build_tag_text, decimal_digits, is_digit, lemma_build_tag_round_trip,
    lemma_decimal_digits, BuildTag, BuildTagError, BuildTagView,
};
use crate::outside::{
    abi_tag_display, language_tag_display, platform_tag_display, version_display,
    abi_tag_error_text, abi_tag_text, language_tag_error_text, language_tag_text,
    normalized_name, parse_abi_tag, parse_language_tag, parse_package_name,
    parse_platform_tag, parse_version, platform_tag_error_text, platform_tag_text, tags_accept,
    tags_rank, url_last_segment, url_text, version_error_text, version_text, engine_accepts,
    engine_rank, url_text_of, last_segment_of, segment_view,
};
use crate::text::{
    all_free_of, chars_of, free_of, join, lemma_join_free, lemma_join_push, lemma_split_join,
    lemma_split_nonempty, split, split_chars, string_of,
};

verus! {

/// Which stage of parsing failed.
#[derive(Debug, Clone, Copy, PartialEq, Eq, Structural)]
pub enum ErrorKind {
    MissingExtension,
    MissingVersion,
    MissingPythonTag,
    MissingAbiTag,
    MissingPlatformTag,
    TooManyComponents,
    InvalidPackageName,
    InvalidVersion,
    InvalidBuildTag,
    InvalidLanguageTag,
    InvalidAbiTag,
    InvalidPlatformTag,
    MissingUrlPath,
    MissingUrlFilename,
}

/// The model of a wheel filename: the canonical text of each component.
pub struct WheelView {
    pub name: Seq<char>,
    pub version: Seq<char>,
    pub build_tag: Option<BuildTagView>,
    pub python_tag: Seq<Seq<char>>,
    pub abi_tag: Seq<Seq<char>>,
    pub platform_tag: Seq<Seq<char>>,
}

/// The canonical texts of the dot-separated tags of `raw`, where each one is valid.
pub open spec fn tag_set_spec(raw: Seq<char>, canon: spec_fn(Seq<char>) -> Option<Seq<char>>) -> Option<
    Seq<Seq<char>>,
> {
    let pieces = split(raw, '.');
    if forall|i: int| 0 <= i < pieces.len() ==> (#[trigger] canon(pieces[i])) is Some {
        Some(pieces.map_values(|p: Seq<char>| canon(p)->0))
    } else {
        None
    }
}

pub open spec fn language_tags_spec(raw: Seq<char>) -> Option<Seq<Seq<char>>> {
    tag_set_spec(raw, |s: Seq<char>| language_tag_text(s))
}

pub open spec fn abi_tags_spec(raw: Seq<char>) -> Option<Seq<Seq<char>>> {
    tag_set_spec(raw, |s: Seq<char>| abi_tag_text(s))
}

pub open spec fn platform_tags_spec(raw: Seq<char>) -> Option<Seq<Seq<char>>> {
    tag_set_spec(raw, |s: Seq<char>| platform_tag_text(s))
}

/// What parsing a stem gives, once its dash-separated segments are assigned to components.
pub open spec fn fields_spec(
    name: Seq<char>,
    version: Seq<char>,
    build: Option<Seq<char>>,
    python: Seq<char>,
    abi: Seq<char>,
    platform: Seq<char>,
) -> Result<WheelView, ErrorKind> {
    if normalized_name(name) is None {
        Err(ErrorKind::InvalidPackageName)
    } else if version_text(version) is None {
        Err(ErrorKind::InvalidVersion)
    } else if build is Some && build_tag_spec(build->0) is Err {
        Err(ErrorKind::InvalidBuildTag)
    } else if language_tags_spec(python) is None {
        Err(ErrorKind::InvalidLanguageTag)
    } else if abi_tags_spec(abi) is None {
        Err(ErrorKind::InvalidAbiTag)
    } else if platform_tags_spec(platform) is None {
        Err(ErrorKind::InvalidPlatformTag)
    } else {
        Ok(
            WheelView {
                name: normalized_name(name)->0,
                version: version_text(version)->0,
                build_tag: match build {
                    Some(b) => Some(build_tag_spec(b)->Ok_0),
                    None => None,
                },
                python_tag: language_tags_spec(python)->0,
                abi_tag: abi_tags_spec(abi)->0,
                platform_tag: platform_tags_spec(platform)->0,
            },
        )
    }
}

/// What parsing a stem (a filename without `.whl`) gives: five segments, or six where the
/// third one is a build tag.
pub open spec fn parse_stem_spec(stem: Seq<char>) -> Result<WheelView, ErrorKind> {
    let segs = split(stem, '-');
    if segs.len() < 2 {
        Err(ErrorKind::MissingVersion)
    } else if segs.len() < 3 {
        Err(ErrorKind::MissingPythonTag)
    } else if segs.len() < 4 {
        Err(ErrorKind::MissingAbiTag)
    } else if segs.len() < 5 {
        Err(ErrorKind::MissingPlatformTag)
    } else if segs.len() > 6 {
        Err(ErrorKind::TooManyComponents)
    } else if segs.len() == 6 {
        fields_spec(segs[0], segs[1], Some(segs[2]), segs[3], segs[4], segs[5])
    } else {
        fields_spec(segs[0], segs[1], None, segs[2], segs[3], segs[4])
    }
}

/// The build-tag parser's error on the build-tag segment of a stem, where parsing the stem
/// fails on it.
pub open spec fn stem_build_tag_failure(stem: Seq<char>) -> Option<BuildTagError> {
    let segs = split(stem, '-');
    if parse_stem_spec(stem) == Err::<WheelView, ErrorKind>(ErrorKind::InvalidBuildTag) {
        Some(build_tag_spec(segs[2])->Err_0)
    } else {
        None
    }
}

/// The same for a filename.
pub open spec fn build_tag_failure(s: Seq<char>) -> Option<BuildTagError> {
    if has_whl_suffix(s) {
        stem_build_tag_failure(s.take(s.len() - 4))
    } else {
        None
    }
}

pub open spec fn whl_suffix() -> Seq<char> {
    seq!['.', 'w', 'h', 'l']
}

pub open spec fn has_whl_suffix(s: Seq<char>) -> bool {
    s.len() >= 4 && s.skip(s.len() - 4) == whl_suffix()
}

/// What parsing a filename gives.
pub open spec fn parse_spec(s: Seq<char>) -> Result<WheelView, ErrorKind> {
    if has_whl_suffix(s) {
        parse_stem_spec(s.take(s.len() - 4))
    } else {
        Err(ErrorKind::MissingExtension)
    }
}

/// The name as a wheel writes it: each `-` of the normalized name becomes `_`.
pub open spec fn dist_info_name(n: Seq<char>) -> Seq<char> {
    n.map_values(|c: char| if c == '-' { '_' } else { c })
}

/// The dash-separated segments that a record renders to.
pub open spec fn segments_of(w: WheelView) -> Seq<Seq<char>> {
    let head = seq![dist_info_name(w.name), w.version];
    let tags = seq![join(w.python_tag, '.'), join(w.abi_tag, '.'), join(w.platform_tag, '.')];
    match w.build_tag {
        Some(b) => head.push(build_tag_text(b)) + tags,
        None => head + tags,
    }
}

/// The stem that a record renders to.
pub open spec fn stem_spec(w: WheelView) -> Seq<char> {
    join(segments_of(w), '-')
}

/// The filename that a record renders to.
pub open spec fn format_spec(w: WheelView) -> Seq<char> {
    stem_spec(w) + whl_suffix()
}

/// A parsed wheel filename.
#[derive(Debug, Clone, PartialEq, Eq, Hash, PartialOrd, Ord)]
pub struct WheelFilename {
    /// The normalized package name.
    pub name: String,
    /// The version, which orders records before its text does.
    pub version_value: Version,
    /// The canonical text of the version.
    pub version: String,
    pub build_tag: Option<BuildTag>,
    /// The language tags themselves, as the compatibility engine takes them.
    pub python_values: Vec<LanguageTag>,
    /// The canonical text of each language tag, in order.
    pub python_tag: Vec<String>,
    /// The ABI tags themselves.
    pub abi_values: Vec<AbiTag>,
    /// The canonical text of each ABI tag, in order.
    pub abi_tag: Vec<String>,
    /// The platform tags themselves.
    pub platform_values: Vec<PlatformTag>,
    /// The canonical text of each platform tag, in order.
    pub platform_tag: Vec<String>,
}

impl WheelFilename {
    /// Each tag set is non-empty, and each text is what its value displays as.
    pub open spec fn wf(&self) -> bool {
        &&& self.python_tag@.len() >= 1
        &&& self.abi_tag@.len() >= 1
        &&& self.platform_tag@.len() >= 1
        &&& self.version@ == version_display(self.version_value)
        &&& texts(self.python_tag@) == self.python_values@.map_values(|t: LanguageTag| language_tag_display(t))
        &&& texts(self.abi_tag@) == self.abi_values@.map_values(|t: AbiTag| abi_tag_display(t))
        &&& texts(self.platform_tag@) == self.platform_values@.map_values(
            |t: PlatformTag| platform_tag_display(t),
        )
    }
}

pub open spec fn texts(v: Seq<String>) -> Seq<Seq<char>> {
    v.map_values(|s: String| s@)
}

impl View for WheelFilename {
    type V = WheelView;

    open spec fn view(&self) -> WheelView {
        WheelView {
            name: self.name@,
            version: self.version@,
            build_tag: match self.build_tag {
                Some(b) => Some(b@),
                None => None,
            },
            python_tag: texts(self.python_tag@),
            abi_tag: texts(self.abi_tag@),
            platform_tag: texts(self.platform_tag@),
        }
    }
}

/// Why a wheel filename was refused. Each variant holds the text that was parsed.
#[derive(Debug)]
pub enum WheelFilenameError {
    MissingExtension(String),
    MissingVersion(String),
    MissingPythonTag(String),
    MissingAbiTag(String),
    MissingPlatformTag(String),
    TooManyComponents(String),
    InvalidPackageName(String, InvalidNameError),
    InvalidVersion(String, VersionParseError),
    InvalidBuildTag(String, BuildTagError),
    InvalidLanguageTag(String, ParseLanguageTagError),
    InvalidAbiTag(String, ParseAbiTagError),
    InvalidPlatformTag(String, ParsePlatformTagError),
    MissingUrlPath(String),
    MissingUrlFilename(String),
}

impl WheelFilenameError {
    pub open spec fn kind(&self) -> ErrorKind {
        match self {
            WheelFilenameError::MissingExtension(_) => ErrorKind::MissingExtension,
            WheelFilenameError::MissingVersion(_) => ErrorKind::MissingVersion,
            WheelFilenameError::MissingPythonTag(_) => ErrorKind::MissingPythonTag,
            WheelFilenameError::MissingAbiTag(_) => ErrorKind::MissingAbiTag,
            WheelFilenameError::MissingPlatformTag(_) => ErrorKind::MissingPlatformTag,
            WheelFilenameError::TooManyComponents(_) => ErrorKind::TooManyComponents,
            WheelFilenameError::InvalidPackageName(_, _) => ErrorKind::InvalidPackageName,
            WheelFilenameError::InvalidVersion(_, _) => ErrorKind::InvalidVersion,
            WheelFilenameError::InvalidBuildTag(_, _) => ErrorKind::InvalidBuildTag,
            WheelFilenameError::InvalidLanguageTag(_, _) => ErrorKind::InvalidLanguageTag,
            WheelFilenameError::InvalidAbiTag(_, _) => ErrorKind::InvalidAbiTag,
            WheelFilenameError::InvalidPlatformTag(_, _) => ErrorKind::InvalidPlatformTag,
            WheelFilenameError::MissingUrlPath(_) => ErrorKind::MissingUrlPath,
            WheelFilenameError::MissingUrlFilename(_) => ErrorKind::MissingUrlFilename,
        }
    }

    /// The build-tag parser's error, for an invalid build tag.
    pub open spec fn build_tag_error(&self) -> Option<BuildTagError> {
        match self {
            WheelFilenameError::InvalidBuildTag(_, e) => Some(*e),
            _ => None,
        }
    }

    /// The text that was being parsed.
    pub open spec fn input(&self) -> Seq<char> {
        match self {
            WheelFilenameError::MissingExtension(s) => s@,
            WheelFilenameError::MissingVersion(s) => s@,
            WheelFilenameError::MissingPythonTag(s) => s@,
            WheelFilenameError::MissingAbiTag(s) => s@,
            WheelFilenameError::MissingPlatformTag(s) => s@,
            WheelFilenameError::TooManyComponents(s) => s@,
            WheelFilenameError::InvalidPackageName(s, _) => s@,
            WheelFilenameError::InvalidVersion(s, _) => s@,
            WheelFilenameError::InvalidBuildTag(s, _) => s@,
            WheelFilenameError::InvalidLanguageTag(s, _) => s@,
            WheelFilenameError::InvalidAbiTag(s, _) => s@,
            WheelFilenameError::InvalidPlatformTag(s, _) => s@,
            WheelFilenameError::MissingUrlPath(s) => s@,
            WheelFilenameError::MissingUrlFilename(s) => s@,
        }
    }
}

/// The result of a parse, as its model: the record's view, or the kind of error.
pub open spec fn outcome(r: Result<WheelFilename, WheelFilenameError>) -> Result<WheelView, ErrorKind> {
    match r {
        Ok(w) => Ok(w@),
        Err(e) => Err(e.kind()),
    }
}

/// The text that an error holds, if any.
pub open spec fn reported_input(r: Result<WheelFilename, WheelFilenameError>) -> Seq<char> {
    match r {
        Ok(_) => Seq::<char>::empty(),
        Err(e) => e.input(),
    }
}

/// Parses each dot-separated language tag of `raw`, stopping at the first invalid one.
fn parse_language_tags(raw: &Vec<char>) -> (r: Result<(Vec<LanguageTag>, Vec<String>), ParseLanguageTagError>)
    ensures
        match r {
            Ok(p) => language_tags_spec(raw@) == Some(texts(p.1@)) && p.1@.len() >= 1 && texts(p.1@)
                == p.0@.map_values(|t: LanguageTag| language_tag_display(t)),
            Err(_) => language_tags_spec(raw@) is None,
        },
{
    let pieces = split_chars(raw, '.');
    let ghost sp = split(raw@, '.');
    proof {
        lemma_split_nonempty(raw@, '.');
    }
    let mut values: Vec<LanguageTag> = Vec::new();
    let mut names: Vec<String> = Vec::new();
    let mut i: usize = 0;
    while i < pieces.len()
        invariant
            pieces@.map_values(|v: Vec<char>| v@) == sp,
            sp == split(raw@, '.'),
            i <= pieces@.len(),
            names@.len() == i,
            values@.len() == i,
            forall|j: int| 0 <= j < i ==> language_tag_text(sp[j]) == Some(#[trigger] names@[j]@),
            texts(names@) == values@.map_values(|t: LanguageTag| language_tag_display(t)),
        decreases pieces@.len() - i,
    {
        let s = string_of(&pieces[i]);
        assert(s@ == sp[i as int]);
        match parse_language_tag(s.as_str()) {
            Ok(t) => {
                let ghost old_values = values@;
                let ghost old_names = names@;
                values.push(t.0);
                names.push(t.1);
                proof {
                    assert forall|j: int| 0 <= j < names@.len() implies texts(names@)[j]
                        == values@.map_values(|t: LanguageTag| language_tag_display(t))[j] by {
                        if j < old_names.len() {
                            assert(texts(old_names)[j] == old_values.map_values(
                                |t: LanguageTag| language_tag_display(t),
                            )[j]);
                        }
                    }
                    assert(texts(names@) =~= values@.map_values(|t: LanguageTag| language_tag_display(t)));
                }
            },
            Err(e) => {
                proof {
                    let canon = |q: Seq<char>| language_tag_text(q);
                    assert(canon(sp[i as int]) is None);
                }
                return Err(e);
            },
        }
        i = i + 1;
    }
    proof {
        let canon = |q: Seq<char>| language_tag_text(q);
        assert forall|j: int| 0 <= j < sp.len() implies (#[trigger] canon(sp[j])) is Some by {
            assert(names@[j]@ == names@[j]@);
        }
        assert(texts(names@) == sp.map_values(|p: Seq<char>| canon(p)->0));
    }
    Ok((values, names))
}

/// Parses each dot-separated ABI tag of `raw`, stopping at the first invalid one.
fn parse_abi_tags(raw: &Vec<char>) -> (r: Result<(Vec<AbiTag>, Vec<String>), ParseAbiTagError>)
    ensures
        match r {
            Ok(p) => abi_tags_spec(raw@) == Some(texts(p.1@)) && p.1@.len() >= 1 && texts(p.1@)
                == p.0@.map_values(|t: AbiTag| abi_tag_display(t)),
            Err(_) => abi_tags_spec(raw@) is None,
        },
{
    let pieces = split_chars(raw, '.');
    let ghost sp = split(raw@, '.');
    proof {
        lemma_split_nonempty(raw@, '.');
    }
    let mut values: Vec<AbiTag> = Vec::new();
    let mut names: Vec<String> = Vec::new();
    let mut i: usize = 0;
    while i < pieces.len()
        invariant
            pieces@.map_values(|v: Vec<char>| v@) == sp,
            sp == split(raw@, '.'),
            i <= pieces@.len(),
            names@.len() == i,
            values@.len() == i,
            forall|j: int| 0 <= j < i ==> abi_tag_text(sp[j]) == Some(#[trigger] names@[j]@),
            texts(names@) == values@.map_values(|t: AbiTag| abi_tag_display(t)),
        decreases pieces@.len() - i,
    {
        let s = string_of(&pieces[i]);
        assert(s@ == sp[i as int]);
        match parse_abi_tag(s.as_str()) {
            Ok(t) => {
                let ghost old_values = values@;
                let ghost old_names = names@;
                values.push(t.0);
                names.push(t.1);
                proof {
                    assert forall|j: int| 0 <= j < names@.len() implies texts(names@)[j]
                        == values@.map_values(|t: AbiTag| abi_tag_display(t))[j] by {
                        if j < old_names.len() {
                            assert(texts(old_names)[j] == old_values.map_values(
                                |t: AbiTag| abi_tag_display(t),
                            )[j]);
                        }
                    }
                    assert(texts(names@) =~= values@.map_values(|t: AbiTag| abi_tag_display(t)));
                }
            },
            Err(e) => {
                proof {
                    let canon = |q: Seq<char>| abi_tag_text(q);
                    assert(canon(sp[i as int]) is None);
                }
                return Err(e);
            },
        }
        i = i + 1;
    }
    proof {
        let canon = |q: Seq<char>| abi_tag_text(q);
        assert forall|j: int| 0 <= j < sp.len() implies (#[trigger] canon(sp[j])) is Some by {
            assert(names@[j]@ == names@[j]@);
        }
        assert(texts(names@) == sp.map_values(|p: Seq<char>| canon(p)->0));
    }
    Ok((values, names))
}

/// Parses each dot-separated platform tag of `raw`, stopping at the first invalid one.
fn parse_platform_tags(raw: &Vec<char>) -> (r: Result<(Vec<PlatformTag>, Vec<String>), ParsePlatformTagError>)
    ensures
        match r {
            Ok(p) => platform_tags_spec(raw@) == Some(texts(p.1@)) && p.1@.len() >= 1 && texts(p.1@)
                == p.0@.map_values(|t: PlatformTag| platform_tag_display(t)),
            Err(_) => platform_tags_spec(raw@) is None,
        },
{
    let pieces = split_chars(raw, '.');
    let ghost sp = split(raw@, '.');
    proof {
        lemma_split_nonempty(raw@, '.');
    }
    let mut values: Vec<PlatformTag> = Vec::new();
    let mut names: Vec<String> = Vec::new();
    let mut i: usize = 0;
    while i < pieces.len()
        invariant
            pieces@.map_values(|v: Vec<char>| v@) == sp,
            sp == split(raw@, '.'),
            i <= pieces@.len(),
            names@.len() == i,
            values@.len() == i,
            forall|j: int| 0 <= j < i ==> platform_tag_text(sp[j]) == Some(#[trigger] names@[j]@),
            texts(names@) == values@.map_values(|t: PlatformTag| platform_tag_display(t)),
        decreases pieces@.len() - i,
    {
        let s = string_of(&pieces[i]);
        assert(s@ == sp[i as int]);
        match parse_platform_tag(s.as_str()) {
            Ok(t) => {
                let ghost old_values = values@;
                let ghost old_names = names@;
                values.push(t.0);
                names.push(t.1);
                proof {
                    assert forall|j: int| 0 <= j < names@.len() implies texts(names@)[j]
                        == values@.map_values(|t: PlatformTag| platform_tag_display(t))[j] by {
                        if j < old_names.len() {
                            assert(texts(old_names)[j] == old_values.map_values(
                                |t: PlatformTag| platform_tag_display(t),
                            )[j]);
                        }
                    }
                    assert(texts(names@) =~= values@.map_values(|t: PlatformTag| platform_tag_display(t)));
                }
            },
            Err(e) => {
                proof {
                    let canon = |q: Seq<char>| platform_tag_text(q);
                    assert(canon(sp[i as int]) is None);
                }
                return Err(e);
            },
        }
        i = i + 1;
    }
    proof {
        let canon = |q: Seq<char>| platform_tag_text(q);
        assert forall|j: int| 0 <= j < sp.len() implies (#[trigger] canon(sp[j])) is Some by {
            assert(names@[j]@ == names@[j]@);
        }
        assert(texts(names@) == sp.map_values(|p: Seq<char>| canon(p)->0));
    }
    Ok((values, names))
}

/// Splits a stem into its components and parses each one; errors carry `input`.
fn parse_segments(stem: &Vec<char>, input: &str) -> (r: Result<WheelFilename, WheelFilenameError>)
    ensures
        outcome(r) == parse_stem_spec(stem@),
        r is Err ==> reported_input(r) == input@,
        r is Ok ==> r->Ok_0.wf(),
        r is Err ==> r->Err_0.build_tag_error() == stem_build_tag_failure(stem@),
{
    let segs = split_chars(stem, '-');
    let ghost sp = split(stem@, '-');
    proof {
        lemma_split_nonempty(stem@, '-');
    }
    let n = segs.len();
    if n < 2 {
        return Err(WheelFilenameError::MissingVersion(String::from_str(input)));
    }
    if n < 3 {
        return Err(WheelFilenameError::MissingPythonTag(String::from_str(input)));
    }
    if n < 4 {
        return Err(WheelFilenameError::MissingAbiTag(String::from_str(input)));
    }
    if n < 5 {
        return Err(WheelFilenameError::MissingPlatformTag(String::from_str(input)));
    }
    if n > 6 {
        return Err(WheelFilenameError::TooManyComponents(String::from_str(input)));
    }
    assert(segs@[0]@ == sp[0] && segs@[1]@ == sp[1] && segs@[2]@ == sp[2]);
    assert(segs@[3]@ == sp[3] && segs@[4]@ == sp[4]);
    let raw_name = string_of(&segs[0]);
    let name = match parse_package_name(raw_name.as_str()) {
        Ok(x) => x,
        Err(e) => {
            return Err(WheelFilenameError::InvalidPackageName(String::from_str(input), e));
        },
    };
    let raw_version = string_of(&segs[1]);
    let version = match parse_version(raw_version.as_str()) {
        Ok(x) => x,
        Err(e) => {
            return Err(WheelFilenameError::InvalidVersion(String::from_str(input), e));
        },
    };
    let build_tag = if n == 6 {
        let raw_build = string_of(&segs[2]);
        match BuildTag::parse(raw_build.as_str()) {
            Ok(b) => Some(b),
            Err(e) => {
                return Err(WheelFilenameError::InvalidBuildTag(String::from_str(input), e));
            },
        }
    } else {
        None
    };
    let first: usize = if n == 6 { 3 } else { 2 };
    assert(n == 6 ==> segs@[5]@ == sp[5]);
    let python = match parse_language_tags(&segs[first]) {
        Ok(x) => x,
        Err(e) => {
            return Err(WheelFilenameError::InvalidLanguageTag(String::from_str(input), e));
        },
    };
    let abi = match parse_abi_tags(&segs[first + 1]) {
        Ok(x) => x,
        Err(e) => {
            return Err(WheelFilenameError::InvalidAbiTag(String::from_str(input), e));
        },
    };
    let platform = match parse_platform_tags(&segs[first + 2]) {
        Ok(x) => x,
        Err(e) => {
            return Err(WheelFilenameError::InvalidPlatformTag(String::from_str(input), e));
        },
    };
    Ok(
        WheelFilename {
            name,
            version_value: version.0,
            version: version.1,
            build_tag,
            python_tag: python.1,
            abi_tag: abi.1,
            platform_tag: platform.1,
            python_values: python.0,
            abi_values: abi.0,
            platform_values: platform.0,
        },
    )
}

impl WheelFilename {
    /// Parses a wheel filename: a stem, then `.whl`.
    pub fn from_str(filename: &str) -> (r: Result<WheelFilename, WheelFilenameError>)
        ensures
            outcome(r) == parse_spec(filename@),
            r is Err ==> reported_input(r) == filename@,
            r is Ok ==> r->Ok_0.wf(),
            r is Err ==> r->Err_0.build_tag_error() == build_tag_failure(filename@),
    {
        let cs = chars_of(filename);
        let n = cs.len();
        if n < 4 || cs[n - 4] != '.' || cs[n - 3] != 'w' || cs[n - 2] != 'h' || cs[n - 1] != 'l' {
            proof {
                if n >= 4 {
                    let t = cs@.skip(n - 4);
                    if t == whl_suffix() {
                        assert(t[0] == cs@[n - 4] && t[1] == cs@[n - 3]);
                        assert(t[2] == cs@[n - 2] && t[3] == cs@[n - 1]);
                    }
                }
            }
            return Err(WheelFilenameError::MissingExtension(String::from_str(filename)));
        }
        proof {
            assert(cs@.skip(n - 4) == whl_suffix());
        }
        let mut stem: Vec<char> = Vec::new();
        let mut i: usize = 0;
        while i < n - 4
            invariant
                n == cs@.len(),
                n >= 4,
                i <= n - 4,
                stem@ == cs@.take(i as int),
            decreases n - 4 - i,
        {
            stem.push(cs[i]);
            i = i + 1;
        }
        parse_segments(&stem, filename)
    }

    /// Parses the stem of a wheel filename, the filename without `.whl`.
    pub fn from_stem(stem: &str) -> (r: Result<WheelFilename, WheelFilenameError>)
        ensures
            outcome(r) == parse_stem_spec(stem@),
            r is Err ==> reported_input(r) == stem@,
            r is Ok ==> r->Ok_0.wf(),
            r is Err ==> r->Err_0.build_tag_error() == stem_build_tag_failure(stem@),
    {
        let cs = chars_of(stem);
        parse_segments(&cs, stem)
    }
}

/// The tags' texts, joined by `.`.
fn join_tags(parts: &Vec<String>) -> (r: String)
    ensures
        r@ == join(texts(parts@), '.'),
{
    let mut r = String::new();
    let mut i: usize = 0;
    while i < parts.len()
        invariant
            i <= parts@.len(),
            r@ == join(texts(parts@).take(i as int), '.'),
        decreases parts@.len() - i,
    {
        let ghost before = texts(parts@).take(i as int);
        proof {
            assert(texts(parts@).take(i as int + 1) == before.push(parts@[i as int]@));
            reveal_strlit(".");
        }
        if i > 0 {
            proof {
                lemma_join_push(before, parts@[i as int]@, '.');
            }
            r.append(".");
        } else {
            assert(before.push(parts@[i as int]@) == seq![parts@[i as int]@]);
        }
        r.append(parts[i].as_str());
        i = i + 1;
    }
    assert(texts(parts@).take(parts@.len() as int) == texts(parts@));
    r
}

/// The name with each `-` turned into `_`.
fn dist_info(name: &String) -> (r: String)
    ensures
        r@ == dist_info_name(name@),
{
    let cs = chars_of(name.as_str());
    let mut out: Vec<char> = Vec::new();
    let mut i: usize = 0;
    while i < cs.len()
        invariant
            i <= cs@.len(),
            cs@ == name@,
            out@ == dist_info_name(cs@.take(i as int)),
        decreases cs@.len() - i,
    {
        let c = cs[i];
        if c == '-' {
            out.push('_');
        } else {
            out.push(c);
        }
        proof {
            assert(dist_info_name(cs@.take(i as int + 1)) == dist_info_name(cs@.take(i as int)).push(
                if c == '-' { '_' } else { c },
            ));
        }
        i = i + 1;
    }
    assert(cs@.take(cs@.len() as int) == cs@);
    string_of(&out)
}

impl WheelFilename {
    /// The wheel filename without the `.whl` extension.
    pub fn stem(&self) -> (r: String)
        ensures
            r@ == stem_spec(self@),
    {
        let ghost w = self@;
        proof {
            reveal_strlit("-");
        }
        let mut r = dist_info(&self.name);
        let ghost segs = seq![dist_info_name(w.name)];
        r.append("-");
        r.append(self.version.as_str());
        proof {
            lemma_join_push(segs, w.version, '-');
            segs = segs.push(w.version);
        }
        match &self.build_tag {
            Some(b) => {
                let t = b.text();
                r.append("-");
                r.append(t.as_str());
                proof {
                    lemma_join_push(segs, t@, '-');
                    segs = segs.push(t@);
                }
            },
            None => {},
        }
        let py = join_tags(&self.python_tag);
        r.append("-");
        r.append(py.as_str());
        proof {
            lemma_join_push(segs, py@, '-');
            segs = segs.push(py@);
        }
        let abi = join_tags(&self.abi_tag);
        r.append("-");
        r.append(abi.as_str());
        proof {
            lemma_join_push(segs, abi@, '-');
            segs = segs.push(abi@);
        }
        let platform = join_tags(&self.platform_tag);
        r.append("-");
        r.append(platform.as_str());
        proof {
            lemma_join_push(segs, platform@, '-');
            segs = segs.push(platform@);
            assert(segs == segments_of(w));
        }
        r
    }

    /// The wheel filename: the stem, then `.whl`.
    pub fn to_string(&self) -> (r: String)
        ensures
            r@ == format_spec(self@),
    {
        let mut r = self.stem();
        proof {
            reveal_strlit(".whl");
        }
        r.append(".whl");
        r
    }
}

/// A tag set as parsing leaves it and rendering needs it: at least one tag, none holding `.`
/// or `-`, and each the canonical text of itself.
pub open spec fn tag_set_canonical(
    tags: Seq<Seq<char>>,
    canon: spec_fn(Seq<char>) -> Option<Seq<char>>,
) -> bool {
    &&& tags.len() >= 1
    &&& all_free_of(tags, '.')
    &&& all_free_of(tags, '-')
    &&& forall|i: int| 0 <= i < tags.len() ==> #[trigger] canon(tags[i]) == Some(tags[i])
}

/// A valid record: each component is in the canonical form of its own grammar and renders to
/// text that holds no stray separator.
pub open spec fn is_canonical(w: WheelView) -> bool {
    &&& normalized_name(dist_info_name(w.name)) == Some(w.name)
    &&& free_of(w.version, '-')
    &&& version_text(w.version) == Some(w.version)
    &&& match w.build_tag {
        Some(b) => {
            &&& b.number <= u64::MAX
            &&& b.suffix.len() == 0 || !is_digit(b.suffix[0])
            &&& free_of(b.suffix, '-')
        },
        None => true,
    }
    &&& tag_set_canonical(w.python_tag, |s: Seq<char>| language_tag_text(s))
    &&& tag_set_canonical(w.abi_tag, |s: Seq<char>| abi_tag_text(s))
    &&& tag_set_canonical(w.platform_tag, |s: Seq<char>| platform_tag_text(s))
}

proof fn lemma_tag_set_round_trip(tags: Seq<Seq<char>>, canon: spec_fn(Seq<char>) -> Option<Seq<char>>)
    requires
        tag_set_canonical(tags, canon),
    ensures
        tag_set_spec(join(tags, '.'), canon) == Some(tags),
        free_of(join(tags, '.'), '-'),
{
    lemma_split_join(tags, '.');
    lemma_join_free(tags, '.', '-');
    assert(tags.map_values(|p: Seq<char>| canon(p)->0) == tags);
}

/// Rendering a valid record and parsing the text gives the same record back.
pub proof fn lemma_round_trip(w: WheelView)
    requires
        is_canonical(w),
    ensures
        parse_spec(format_spec(w)) == Ok::<WheelView, ErrorKind>(w),
{
    let segs = segments_of(w);
    let stem = stem_spec(w);
    let f = format_spec(w);
    lemma_tag_set_round_trip(w.python_tag, |s: Seq<char>| language_tag_text(s));
    lemma_tag_set_round_trip(w.abi_tag, |s: Seq<char>| abi_tag_text(s));
    lemma_tag_set_round_trip(w.platform_tag, |s: Seq<char>| platform_tag_text(s));
    match w.build_tag {
        Some(b) => {
            lemma_build_tag_round_trip(b);
            lemma_decimal_digits(b.number);
            let d = decimal_digits(b.number);
            assert forall|i: int| 0 <= i < build_tag_text(b).len() implies build_tag_text(b)[i]
                != '-' by {
                if i < d.len() {
                    assert(is_digit(d[i]));
                } else {
                    assert(build_tag_text(b)[i] == b.suffix[i - d.len()]);
                }
            }
        },
        None => {},
    }
    assert(free_of(dist_info_name(w.name), '-'));
    assert(all_free_of(segs, '-'));
    lemma_split_join(segs, '-');
    assert(f.skip(f.len() - 4) == whl_suffix());
    assert(f.take(f.len() - 4) == stem);
    assert(segs[0] == dist_info_name(w.name));
    assert(segs[1] == w.version);
}

/// A filename that does not end in `.whl` is refused for that, whatever it holds.
pub proof fn lemma_extension_required(s: Seq<char>)
    requires
        !has_whl_suffix(s),
    ensures
        parse_spec(s) == Err::<WheelView, ErrorKind>(ErrorKind::MissingExtension),
{
}

/// Only five or six dash-separated segments can make a record; with fewer, the first missing
/// component is reported, and with more, their number.
pub proof fn lemma_segment_count(stem: Seq<char>)
    ensures
        parse_stem_spec(stem) is Ok ==> 5 <= split(stem, '-').len() <= 6,
        split(stem, '-').len() > 6 ==> parse_stem_spec(stem) == Err::<WheelView, ErrorKind>(
            ErrorKind::TooManyComponents,
        ),
        split(stem, '-').len() <= 1 ==> parse_stem_spec(stem) == Err::<WheelView, ErrorKind>(
            ErrorKind::MissingVersion,
        ),
        split(stem, '-').len() == 2 ==> parse_stem_spec(stem) == Err::<WheelView, ErrorKind>(
            ErrorKind::MissingPythonTag,
        ),
        split(stem, '-').len() == 3 ==> parse_stem_spec(stem) == Err::<WheelView, ErrorKind>(
            ErrorKind::MissingAbiTag,
        ),
        split(stem, '-').len() == 4 ==> parse_stem_spec(stem) == Err::<WheelView, ErrorKind>(
            ErrorKind::MissingPlatformTag,
        ),
        parse_stem_spec(stem) is Ok ==> (parse_stem_spec(stem)->Ok_0.build_tag is Some <==> split(
            stem,
            '-',
        ).len() == 6),
{
}

/// A tag set of one tag renders as that tag alone; one of several renders as its tags joined
/// by `.`.
pub proof fn lemma_tag_segment(tags: Seq<Seq<char>>)
    ensures
        tags.len() == 1 ==> join(tags, '.') == tags[0],
        tags.len() >= 2 ==> join(tags, '.') == join(tags.drop_last(), '.').push('.') + tags.last(),
{
}

/// What parsing the filename of a URL gives, from its last path segment: `None` where the URL
/// has no path, `Some(None)` where the path has no segment.
pub open spec fn url_parse_spec(last: Option<Option<Seq<char>>>) -> Result<WheelView, ErrorKind> {
    match last {
        None => Err(ErrorKind::MissingUrlPath),
        Some(None) => Err(ErrorKind::MissingUrlFilename),
        Some(Some(segment)) => parse_spec(segment),
    }
}

/// The build-tag parser's error where parsing a URL's last segment fails on it.
pub open spec fn url_build_tag_failure(last: Option<Option<Seq<char>>>) -> Option<BuildTagError> {
    match last {
        Some(Some(segment)) => build_tag_failure(segment),
        _ => None,
    }
}

impl WheelFilename {
    /// Parses the filename of a URL, given the URL's text and its last path segment; a URL
    /// without one is refused with an error that holds the URL's text.
    pub fn from_url_parts(url: &str, last: Option<Option<String>>) -> (r: Result<
        WheelFilename,
        WheelFilenameError,
    >)
        ensures
            outcome(r) == url_parse_spec(segment_view(last)),
            r is Ok ==> r->Ok_0.wf(),
            r is Err ==> reported_input(r) == url@,
            r is Err ==> r->Err_0.build_tag_error() == url_build_tag_failure(segment_view(last)),
    {
        match last {
            None => Err(WheelFilenameError::MissingUrlPath(String::from_str(url))),
            Some(None) => Err(WheelFilenameError::MissingUrlFilename(String::from_str(url))),
            Some(Some(segment)) => match WheelFilename::from_str(segment.as_str()) {
                Ok(w) => Ok(w),
                Err(e) => Err(e.with_input(String::from_str(url))),
            },
        }
    }

    /// Parses the last path segment of a URL as a wheel filename.
    pub fn from_url(url: &Url) -> (r: Result<WheelFilename, WheelFilenameError>)
        ensures
            outcome(r) == url_parse_spec(last_segment_of(*url)),
            r is Ok ==> r->Ok_0.wf(),
            r is Err ==> reported_input(r) == url_text_of(*url),
            r is Err ==> r->Err_0.build_tag_error() == url_build_tag_failure(last_segment_of(*url)),
    {
        let text = url_text(url);
        let last = url_last_segment(url);
        WheelFilename::from_url_parts(text.as_str(), last)
    }

    /// Whether some combination of the wheel's tags is among the supported ones.
    pub fn is_compatible(&self, compatible_tags: &Tags) -> (r: bool)
        ensures
            r == engine_accepts(
                *compatible_tags,
                self.python_values@,
                self.abi_values@,
                self.platform_values@,
            ),
    {
        tags_accept(compatible_tags, &self.python_values, &self.abi_values, &self.platform_values)
    }

    /// How well the wheel's tags match the supported ones: the rank of the best combination,
    /// or why none matches.
    pub fn compatibility(&self, compatible_tags: &Tags) -> (r: TagCompatibility)
        ensures
            r == engine_rank(*compatible_tags, self.python_values@, self.abi_values@, self.platform_values@),
    {
        tags_rank(compatible_tags, &self.python_values, &self.abi_values, &self.platform_values)
    }
}

impl WheelFilenameError {
    /// The same error, holding `input` as the text that was parsed.
    pub fn with_input(self, input: String) -> (r: WheelFilenameError)
        ensures
            r.kind() == self.kind(),
            r.input() == input@,
            r.build_tag_error() == self.build_tag_error(),
    {
        match self {
            WheelFilenameError::MissingExtension(_) => WheelFilenameError::MissingExtension(input),
            WheelFilenameError::MissingVersion(_) => WheelFilenameError::MissingVersion(input),
            WheelFilenameError::MissingPythonTag(_) => WheelFilenameError::MissingPythonTag(input),
            WheelFilenameError::MissingAbiTag(_) => WheelFilenameError::MissingAbiTag(input),
            WheelFilenameError::MissingPlatformTag(_) => WheelFilenameError::MissingPlatformTag(input),
            WheelFilenameError::TooManyComponents(_) => WheelFilenameError::TooManyComponents(input),
            WheelFilenameError::InvalidPackageName(_, e) => WheelFilenameError::InvalidPackageName(input, e),
            WheelFilenameError::InvalidVersion(_, e) => WheelFilenameError::InvalidVersion(input, e),
            WheelFilenameError::InvalidBuildTag(_, e) => WheelFilenameError::InvalidBuildTag(input, e),
            WheelFilenameError::InvalidLanguageTag(_, e) => WheelFilenameError::InvalidLanguageTag(input, e),
            WheelFilenameError::InvalidAbiTag(_, e) => WheelFilenameError::InvalidAbiTag(input, e),
            WheelFilenameError::InvalidPlatformTag(_, e) => WheelFilenameError::InvalidPlatformTag(input, e),
            WheelFilenameError::MissingUrlPath(_) => WheelFilenameError::MissingUrlPath(input),
            WheelFilenameError::MissingUrlFilename(_) => WheelFilenameError::MissingUrlFilename(input),
        }
    }
}

/// `The wheel filename "<input>" `, the start of each message.
pub open spec fn message_head_spec(input: Seq<char>) -> Seq<char> {
    "The wheel filename \""@ + input + "\" "@
}

impl WheelFilenameError {
    /// The message up to the outside parser's own words, where it has any.
    pub open spec fn message_start(&self) -> Seq<char> {
        match self {
            WheelFilenameError::MissingExtension(s) => message_head_spec(s@) + "is invalid: Must end with .whl"@,
            WheelFilenameError::MissingVersion(s) => message_head_spec(s@) + "is invalid: Must have a version"@,
            WheelFilenameError::MissingPythonTag(s) => message_head_spec(s@) + "is invalid: Must have a Python tag"@,
            WheelFilenameError::MissingAbiTag(s) => message_head_spec(s@) + "is invalid: Must have an ABI tag"@,
            WheelFilenameError::MissingPlatformTag(s) => message_head_spec(s@) + "is invalid: Must have a platform tag"@,
            WheelFilenameError::TooManyComponents(s) => message_head_spec(s@)
                + "is invalid: Must have 5 or 6 components, but has more"@,
            WheelFilenameError::MissingUrlPath(s) => message_head_spec(s@) + "is invalid: URL must have a path"@,
            WheelFilenameError::MissingUrlFilename(s) => message_head_spec(s@)
                + "is invalid: URL must contain a filename"@,
            WheelFilenameError::InvalidPackageName(s, _) => message_head_spec(s@) + "has an invalid package name"@,
            WheelFilenameError::InvalidBuildTag(s, e) => message_head_spec(s@) + "has an invalid build tag: "@
                + e.text(),
            WheelFilenameError::InvalidVersion(s, _) => message_head_spec(s@) + "has an invalid version: "@,
            WheelFilenameError::InvalidLanguageTag(s, _) => message_head_spec(s@)
                + "has an invalid language tag: "@,
            WheelFilenameError::InvalidAbiTag(s, _) => message_head_spec(s@) + "has an invalid ABI tag: "@,
            WheelFilenameError::InvalidPlatformTag(s, _) => message_head_spec(s@)
                + "has an invalid platform tag: "@,
        }
    }

    /// Whether the message ends with an outside parser's own description of the error.
    pub open spec fn has_outside_detail(&self) -> bool {
        ||| self is InvalidVersion
        ||| self is InvalidLanguageTag
        ||| self is InvalidAbiTag
        ||| self is InvalidPlatformTag
    }
}

fn message_with(input: &String, what: &str, detail: &str) -> (r: String)
    ensures
        r@ == message_head_spec(input@) + what@ + detail@,
{
    let mut r = String::from_str("The wheel filename \"");
    r.append(input.as_str());
    r.append("\" ");
    r.append(what);
    r.append(detail);
    r
}

impl WheelFilenameError {
    /// The message that describes the error: the input, what is wrong with it, and the
    /// parser's own words where one refused a component.
    pub fn message(&self) -> (r: String)
        ensures
            !self.has_outside_detail() ==> r@ == self.message_start(),
            self.has_outside_detail() ==> r@.len() >= self.message_start().len() && r@.subrange(
                0,
                self.message_start().len() as int,
            ) == self.message_start(),
    {
        proof {
            reveal_strlit("");
        }
        let r = match self {
            WheelFilenameError::MissingExtension(s) => message_with(s, "is invalid: Must end with .whl", ""),
            WheelFilenameError::MissingVersion(s) => message_with(s, "is invalid: Must have a version", ""),
            WheelFilenameError::MissingPythonTag(s) => message_with(s, "is invalid: Must have a Python tag", ""),
            WheelFilenameError::MissingAbiTag(s) => message_with(s, "is invalid: Must have an ABI tag", ""),
            WheelFilenameError::MissingPlatformTag(s) => message_with(s, "is invalid: Must have a platform tag", ""),
            WheelFilenameError::TooManyComponents(s) => {
                message_with(s, "is invalid: Must have 5 or 6 components, but has more", "")
            },
            WheelFilenameError::MissingUrlPath(s) => message_with(s, "is invalid: URL must have a path", ""),
            WheelFilenameError::MissingUrlFilename(s) => {
                message_with(s, "is invalid: URL must contain a filename", "")
            },
            WheelFilenameError::InvalidPackageName(s, _) => message_with(s, "has an invalid package name", ""),
            WheelFilenameError::InvalidBuildTag(s, e) => {
                let detail = e.message();
                message_with(s, "has an invalid build tag: ", detail.as_str())
            },
            WheelFilenameError::InvalidVersion(s, e) => {
                let detail = version_error_text(e);
                message_with(s, "has an invalid version: ", detail.as_str())
            },
            WheelFilenameError::InvalidLanguageTag(s, e) => {
                let detail = language_tag_error_text(e);
                message_with(s, "has an invalid language tag: ", detail.as_str())
            },
            WheelFilenameError::InvalidAbiTag(s, e) => {
                let detail = abi_tag_error_text(e);
                message_with(s, "has an invalid ABI tag: ", detail.as_str())
            },
            WheelFilenameError::InvalidPlatformTag(s, e) => {
                let detail = platform_tag_error_text(e);
                message_with(s, "has an invalid platform tag: ", detail.as_str())
            },
        };
        proof {
            let start = self.message_start();
            if !self.has_outside_detail() {
                assert(r@ == start);
            } else {
                assert(r@.subrange(0, start.len() as int) =~= start);
            }
        }
        r
    }
}

} // verus!
