//! Registry metadata resolution: package version records, selection of the
//! latest normal version, feature listing, and download locators, together
//! with crate-name validation and the hyphen/underscore name variants tried
//! against the registry.

use crate::errors::Error;
use vstd::prelude::*;
use vstd::string::StringExecFns;

verus! {

/// One feature a package version exposes, with the dependency features it
/// enables.
pub struct Feature {
    /// The feature's name.
    pub name: String,
    /// What the feature enables, as the registry lists it.
    pub enables: Vec<String>,
}

/// One published version of a package, as the registry describes it.
pub struct VersionInfo {
    /// The version string, as published.
    pub version: String,
    /// Whether the version has been yanked.
    pub yanked: bool,
    /// The features the version exposes.
    pub features: Vec<Feature>,
    /// The minimum supported toolchain, when declared.
    pub rust_version: Option<String>,
    /// The package checksum, 32 bytes.
    pub checksum: Vec<u8>,
}

/// A package's registry record: its name and every published version, in
/// registry order.
pub struct RegistryEntry {
    /// The package name.
    pub name: String,
    /// Every published version, in the order the registry lists them.
    pub versions: Vec<VersionInfo>,
}

/// What `semver` decodes from a version string: the numeric triple and the
/// pre-release identifier, or nothing when the string does not parse.
pub uninterp spec fn parsed_version(s: Seq<char>) -> Option<(u64, u64, u64, Seq<char>)>;

/// Relies on `semver::Version::parse`: decodes `major.minor.patch` with
/// optional pre-release and build suffixes; the result is a function of the
/// string alone.
#[verifier::external_body]
fn parse_version_raw(s: &str) -> (r: Option<(u64, u64, u64, String)>)
    ensures
        match (r, parsed_version(s@)) {
            (Some((ma, mi, pa, pre)), Some((sma, smi, spa, spre))) => ma == sma && mi == smi && pa
                == spa && pre@ == spre,
            (None, None) => true,
            _ => false,
        },
{
    match semver::Version::parse(s) {
        Ok(v) => Some((v.major, v.minor, v.patch, v.pre.as_str().to_string())),
        Err(_) => None,
    }
}

/// The version's numeric triple and whether it is a pre-release, when the
/// version string parses.
pub open spec fn version_triple(s: Seq<char>) -> Option<(u64, u64, u64, bool)> {
    match parsed_version(s) {
        Some((ma, mi, pa, pre)) => Some((ma, mi, pa, pre.len() > 0)),
        None => None,
    }
}

/// Decodes a version string into its numeric triple and a pre-release flag.
pub fn parse_triple(s: &str) -> (r: Option<(u64, u64, u64, bool)>)
    ensures
        r == version_triple(s@),
{
    match parse_version_raw(s) {
        Some((ma, mi, pa, pre)) => Some((ma, mi, pa, !pre.as_str().is_empty())),
        None => None,
    }
}

/// A version that participates in "latest" selection: not yanked, parseable,
/// and not a pre-release.
pub open spec fn is_normal(v: VersionInfo) -> bool {
    &&& !v.yanked
    &&& match version_triple(v.version@) {
        Some((_, _, _, pre)) => !pre,
        None => false,
    }
}

/// The numeric triple of a version; meaningful only when the string parses.
pub open spec fn triple_of(v: VersionInfo) -> (u64, u64, u64) {
    match version_triple(v.version@) {
        Some((ma, mi, pa, _)) => (ma, mi, pa),
        None => (0, 0, 0),
    }
}

/// Numeric ordering of version triples: major, then minor, then patch.
pub open spec fn triple_le(a: (u64, u64, u64), b: (u64, u64, u64)) -> bool {
    if a.0 != b.0 {
        a.0 < b.0
    } else if a.1 != b.1 {
        a.1 < b.1
    } else {
        a.2 <= b.2
    }
}

/// The position of the latest normal version: the highest triple among
/// versions that are neither yanked nor pre-release, the last among equal
/// triples; `-1` when no version qualifies.
pub open spec fn best_normal_index(s: Seq<VersionInfo>) -> int
    decreases s.len(),
{
    if s.len() == 0 {
        -1
    } else {
        let rest = best_normal_index(s.drop_last());
        if is_normal(s.last()) {
            if rest == -1 || triple_le(triple_of(s[rest]), triple_of(s.last())) {
                s.len() - 1
            } else {
                rest
            }
        } else {
            rest
        }
    }
}

/// `best_normal_index` points at a normal version whose triple is highest,
/// and is `-1` exactly when no version is normal.
pub proof fn lemma_best_normal_index(s: Seq<VersionInfo>)
    ensures
        best_normal_index(s) == -1 <==> (forall|j: int| 0 <= j < s.len() ==> !is_normal(#[trigger] s[j])),
        best_normal_index(s) != -1 ==> 0 <= best_normal_index(s) < s.len() && is_normal(
            s[best_normal_index(s)],
        ),
        best_normal_index(s) != -1 ==> (forall|j: int|
            0 <= j < s.len() && is_normal(#[trigger] s[j]) ==> triple_le(
                triple_of(s[j]),
                triple_of(s[best_normal_index(s)]),
            )),
    decreases s.len(),
{
    if s.len() > 0 {
        lemma_best_normal_index(s.drop_last());
        assert(forall|j: int| 0 <= j < s.len() - 1 ==> s.drop_last()[j] == #[trigger] s[j]);
        assert forall|a: (u64, u64, u64), b: (u64, u64, u64)| triple_le(a, b) || triple_le(
            b,
            a,
        ) by {}
        assert forall|a: (u64, u64, u64), b: (u64, u64, u64), c: (u64, u64, u64)|
            triple_le(a, b) && triple_le(b, c) implies triple_le(a, c) by {}
    }
}

/// The first position carrying exactly the given version string, or `-1`.
pub open spec fn version_index(s: Seq<VersionInfo>, v: Seq<char>) -> int
    decreases s.len(),
{
    if s.len() == 0 {
        -1
    } else if s[0].version@ == v {
        0
    } else {
        let rest = version_index(s.drop_first(), v);
        if rest == -1 {
            -1
        } else {
            1 + rest
        }
    }
}

/// `version_index` points at the first entry with the version string, and
/// is `-1` exactly when none carries it.
pub proof fn lemma_version_index(s: Seq<VersionInfo>, v: Seq<char>)
    ensures
        version_index(s, v) == -1 <==> (forall|j: int| 0 <= j < s.len() ==> #[trigger] s[j].version@ != v),
        version_index(s, v) != -1 ==> 0 <= version_index(s, v) < s.len() && s[version_index(
            s,
            v,
        )].version@ == v,
        version_index(s, v) != -1 ==> (forall|j: int|
            0 <= j < version_index(s, v) ==> #[trigger] s[j].version@ != v),
    decreases s.len(),
{
    if s.len() > 0 && s[0].version@ != v {
        lemma_version_index(s.drop_first(), v);
        assert(forall|j: int| 0 <= j < s.len() - 1 ==> s.drop_first()[j] == #[trigger] s[j + 1]);
        if version_index(s.drop_first(), v) == -1 {
            assert forall|j: int| 0 <= j < s.len() implies #[trigger] s[j].version@ != v by {
                if j > 0 {
                    assert(s.drop_first()[j - 1].version@ != v);
                }
            }
        } else {
            let vi = version_index(s, v);
            assert(vi == 1 + version_index(s.drop_first(), v));
            assert forall|j: int| 0 <= j < vi implies #[trigger] s[j].version@ != v by {
                if j > 0 {
                    assert(s.drop_first()[j - 1].version@ != v);
                }
            }
        }
    }
}

impl RegistryEntry {
    /// Finds the position of the latest normal version, scanning the list
    /// once and keeping the last among equal triples.
    fn find_best_normal(&self) -> (r: Option<usize>)
        ensures
            match r {
                Some(i) => i == best_normal_index(self.versions@),
                None => best_normal_index(self.versions@) == -1,
            },
    {
        let mut best: Option<usize> = None;
        let mut best_triple: (u64, u64, u64) = (0, 0, 0);
        let mut i: usize = 0;
        while i < self.versions.len()
            invariant
                i <= self.versions@.len(),
                match best {
                    Some(b) => b == best_normal_index(self.versions@.take(i as int)) && b < i
                        && best_triple == triple_of(self.versions@[b as int]),
                    None => best_normal_index(self.versions@.take(i as int)) == -1,
                },
            decreases self.versions@.len() - i,
        {
            proof {
                assert(self.versions@.take(i + 1 as int).drop_last() =~= self.versions@.take(
                    i as int,
                ));
            }
            let vi = &self.versions[i];
            if !vi.yanked {
                match parse_triple(vi.version.as_str()) {
                    Some((ma, mi, pa, pre)) => {
                        if !pre {
                            assert(is_normal(self.versions@[i as int]));
                            let better = match best {
                                Some(_) => {
                                    let bt = best_triple;
                                    if bt.0 != ma {
                                        bt.0 < ma
                                    } else if bt.1 != mi {
                                        bt.1 < mi
                                    } else {
                                        bt.2 <= pa
                                    }
                                },
                                None => true,
                            };
                            if better {
                                best = Some(i);
                                best_triple = (ma, mi, pa);
                            }
                        } else {
                            assert(!is_normal(self.versions@[i as int]));
                        }
                    },
                    None => {
                        assert(!is_normal(self.versions@[i as int]));
                    },
                }
            } else {
                assert(!is_normal(self.versions@[i as int]));
            }
            i = i + 1;
        }
        proof {
            assert(self.versions@.take(self.versions@.len() as int) =~= self.versions@);
        }
        best
    }

    /// The latest version: the highest version that is neither yanked nor a
    /// pre-release. Fails with `NoVersions` when none qualifies.
    pub fn latest_version(&self) -> (r: Result<String, Error>)
        ensures
            match r {
                Ok(v) => best_normal_index(self.versions@) != -1 && v@ == self.versions@[
                    best_normal_index(self.versions@)].version@,
                Err(e) => best_normal_index(self.versions@) == -1 && e is NoVersions
                    && e.message_view() == "no versions found: "@ + self.name@,
            },
    {
        proof {
            lemma_best_normal_index(self.versions@);
        }
        match self.find_best_normal() {
            Some(i) => Ok(self.versions[i].version.clone()),
            None => Err(Error::NoVersions(String::from_str("no versions found: ").concat(
                self.name.as_str(),
            ))),
        }
    }

    /// Every published version, in registry order.
    pub fn versions(&self) -> (r: &Vec<VersionInfo>)
        ensures
            r == &self.versions,
    {
        &self.versions
    }

    /// The position of the requested version, if the string matches one.
    fn find_version(&self, version: &str) -> (r: Option<usize>)
        ensures
            match r {
                Some(i) => i == version_index(self.versions@, version@),
                None => version_index(self.versions@, version@) == -1,
            },
    {
        let mut i: usize = 0;
        while i < self.versions.len()
            invariant
                i <= self.versions@.len(),
                forall|j: int| 0 <= j < i ==> #[trigger] self.versions@[j].version@ != version@,
            decreases self.versions@.len() - i,
        {
            if crate::strutil::str_eq(self.versions[i].version.as_str(), version) {
                proof {
                    lemma_version_index(self.versions@, version@);
                }
                return Some(i);
            }
            i = i + 1;
        }
        proof {
            lemma_version_index(self.versions@, version@);
        }
        None
    }

    /// The position of the version the caller selected: the named one when
    /// a version string is supplied, else the latest normal version.
    /// Fails with `VersionNotFound` when the named version is unknown and
    /// with `NoVersions` when nothing qualifies as latest.
    fn select_version(&self, version: Option<&str>) -> (r: Result<usize, Error>)
        ensures
            match r {
                Ok(i) => match version {
                    Some(v) => version_index(self.versions@, v@) == i,
                    None => best_normal_index(self.versions@) == i,
                },
                Err(e) => match version {
                    Some(v) => version_index(self.versions@, v@) == -1 && e is VersionNotFound
                        && e.message_view() == "version not found: "@ + v@,
                    None => best_normal_index(self.versions@) == -1 && e is NoVersions
                        && e.message_view() == "no versions found: "@ + self.name@,
                },
            },
    {
        match version {
            Some(v) => match self.find_version(v) {
                Some(i) => Ok(i),
                None => Err(
                    Error::VersionNotFound(String::from_str("version not found: ").concat(v)),
                ),
            },
            None => match self.find_best_normal() {
                Some(i) => Ok(i),
                None => Err(Error::NoVersions(String::from_str("no versions found: ").concat(
                    self.name.as_str(),
                ))),
            },
        }
    }

    /// The names of the features the selected version exposes, in the order
    /// the record lists them.
    pub fn features(&self, version: Option<&str>) -> (r: Result<Vec<String>, Error>)
        ensures
            match r {
                Ok(names) => match version {
                    Some(v) => version_index(self.versions@, v@) != -1 && names.deep_view()
                        == feature_names(
                        self.versions@[version_index(self.versions@, v@)].features@,
                    ),
                    None => best_normal_index(self.versions@) != -1 && names.deep_view()
                        == feature_names(
                        self.versions@[best_normal_index(self.versions@)].features@,
                    ),
                },
                Err(e) => match version {
                    Some(v) => version_index(self.versions@, v@) == -1 && e is VersionNotFound
                        && e.message_view() == "version not found: "@ + v@,
                    None => best_normal_index(self.versions@) == -1 && e is NoVersions
                        && e.message_view() == "no versions found: "@ + self.name@,
                },
            },
    {
        proof {
            lemma_version_index(
                self.versions@,
                match version {
                    Some(v) => v@,
                    None => Seq::empty(),
                },
            );
            lemma_best_normal_index(self.versions@);
        }
        let idx = match self.select_version(version) {
            Ok(i) => i,
            Err(e) => {
                return Err(e);
            },
        };
        let fs = &self.versions[idx].features;
        let mut names: Vec<String> = Vec::new();
        let mut i: usize = 0;
        while i < fs.len()
            invariant
                i <= fs@.len(),
                names.deep_view() =~= feature_names(fs@).take(i as int),
            decreases fs@.len() - i,
        {
            let ghost pre_dv = names.deep_view();
            let x = fs[i].name.clone();
            proof {
                assert(x@ == fs@[i as int].name@);
            }
            names.push(x);
            proof {
                assert(names.deep_view() =~= pre_dv.push(x@));
                assert(names.deep_view() =~= feature_names(fs@).take(i + 1 as int));
            }
            i = i + 1;
        }
        proof {
            assert(feature_names(fs@).take(fs@.len() as int) =~= feature_names(fs@));
        }
        Ok(names)
    }
}

/// The feature names of a version record, in order.
pub open spec fn feature_names(fs: Seq<Feature>) -> Seq<Seq<char>> {
    Seq::new(fs.len(), |i: int| fs[i].name@)
}

/// The characters that hyphen/underscore normalization treats as separators.
pub open spec fn is_sep(c: char) -> bool {
    c == '-' || c == '_'
}

/// How many separator characters the name holds.
pub open spec fn sep_count(s: Seq<char>) -> int
    decreases s.len(),
{
    if s.len() == 0 {
        0
    } else {
        sep_count(s.drop_last()) + if is_sep(s.last()) {
            1int
        } else {
            0int
        }
    }
}

/// The name with every separator replaced by `fill`.
pub open spec fn sep_variant(s: Seq<char>, fill: char) -> Seq<char> {
    Seq::new(
        s.len(),
        |i: int|
            if is_sep(s[i]) {
                fill
            } else {
                s[i]
            },
    )
}

/// Whether a separator occurs before position `i`.
pub open spec fn sep_before(s: Seq<char>, i: int) -> bool {
    exists|j: int| 0 <= j < i && is_sep(s[j])
}

/// The name with its first separator replaced by a hyphen and every later
/// separator by an underscore.
pub open spec fn first_sep_variant(s: Seq<char>) -> Seq<char> {
    Seq::new(
        s.len(),
        |i: int|
            if is_sep(s[i]) {
                if sep_before(s, i) {
                    '_'
                } else {
                    '-'
                }
            } else {
                s[i]
            },
    )
}

/// The name variants tried against the registry, in order: the name itself,
/// then up to two normalized spellings of it — all-hyphens, all-underscores,
/// and, when the name itself already is one of those, the spelling with a
/// hyphen at the first separator only — skipping any spelling equal to the
/// name.
pub open spec fn name_variants_spec(s: Seq<char>) -> Seq<Seq<char>> {
    let hy = sep_variant(s, '-');
    let un = sep_variant(s, '_');
    if sep_count(s) == 0 {
        seq![s]
    } else if s == hy {
        if sep_count(s) >= 2 {
            seq![s, un, first_sep_variant(s)]
        } else {
            seq![s, un]
        }
    } else if s == un {
        if sep_count(s) >= 2 {
            seq![s, hy, first_sep_variant(s)]
        } else {
            seq![s, hy]
        }
    } else {
        seq![s, hy, un]
    }
}

/// Counts the separator characters in the name.
fn count_seps(name: &str) -> (r: usize)
    ensures
        r == sep_count(name@),
{
    let len = name.unicode_len();
    let mut n: usize = 0;
    let mut i: usize = 0;
    while i < len
        invariant
            len == name@.len(),
            i <= len,
            n == sep_count(name@.take(i as int)),
            n <= i,
        decreases len - i,
    {
        proof {
            assert(name@.take(i + 1 as int).drop_last() =~= name@.take(i as int));
        }
        let c = name.get_char(i);
        if c == '-' || c == '_' {
            n = n + 1;
        }
        i = i + 1;
    }
    proof {
        assert(name@.take(len as int) =~= name@);
    }
    n
}

/// Builds the all-hyphens or all-underscores spelling of the name.
fn build_sep_variant(name: &str, hyphen: bool) -> (r: String)
    ensures
        r@ == sep_variant(
            name@,
            if hyphen {
                '-'
            } else {
                '_'
            },
        ),
{
    let ghost fill = if hyphen {
        '-'
    } else {
        '_'
    };
    proof {
        reveal_strlit("-");
        reveal_strlit("_");
    }
    let len = name.unicode_len();
    let mut out = String::new();
    let mut i: usize = 0;
    while i < len
        invariant
            len == name@.len(),
            i <= len,
            out@ =~= sep_variant(name@, fill).take(i as int),
            fill == if hyphen {
                '-'
            } else {
                '_'
            },
            "-"@ =~= seq!['-'],
            "_"@ =~= seq!['_'],
        decreases len - i,
    {
        let c = name.get_char(i);
        if c == '-' || c == '_' {
            if hyphen {
                out.append("-");
            } else {
                out.append("_");
            }
        } else {
            let piece = name.substring_char(i, i + 1);
            out.append(piece);
        }
        proof {
            assert(out@ =~= sep_variant(name@, fill).take(i + 1 as int));
        }
        i = i + 1;
    }
    proof {
        assert(sep_variant(name@, fill).take(len as int) =~= sep_variant(name@, fill));
    }
    out
}

/// Builds the spelling with a hyphen at the first separator only.
fn build_first_sep_variant(name: &str) -> (r: String)
    ensures
        r@ == first_sep_variant(name@),
{
    proof {
        reveal_strlit("-");
        reveal_strlit("_");
    }
    let len = name.unicode_len();
    let mut out = String::new();
    let mut seen = false;
    let mut i: usize = 0;
    while i < len
        invariant
            len == name@.len(),
            i <= len,
            out@ =~= first_sep_variant(name@).take(i as int),
            seen == sep_before(name@, i as int),
            "-"@ =~= seq!['-'],
            "_"@ =~= seq!['_'],
        decreases len - i,
    {
        let c = name.get_char(i);
        if c == '-' || c == '_' {
            if seen {
                out.append("_");
            } else {
                out.append("-");
            }
            seen = true;
        } else {
            let piece = name.substring_char(i, i + 1);
            out.append(piece);
        }
        proof {
            assert(out@ =~= first_sep_variant(name@).take(i + 1 as int));
            if c == '-' || c == '_' {
                assert(is_sep(name@[i as int]));
                assert(sep_before(name@, i + 1 as int));
            } else {
                assert forall|j: int| 0 <= j < i + 1 && is_sep(name@[j]) implies sep_before(
                    name@,
                    i as int,
                ) by {}
            }
        }
        i = i + 1;
    }
    proof {
        assert(first_sep_variant(name@).take(len as int) =~= first_sep_variant(name@));
    }
    out
}

/// The hyphen/underscore name variants tried against the registry, capped
/// at three: the name first, then its normalized spellings. A name with
/// more than fifteen separators is rejected as invalid.
pub fn name_variants(name: &str) -> (r: Result<Vec<String>, Error>)
    ensures
        match r {
            Ok(v) => sep_count(name@) <= 15 && v.deep_view() == name_variants_spec(name@),
            Err(e) => sep_count(name@) > 15 && e is InvalidInput && e.message_view()
                == "invalid crate name: "@ + name@,
        },
{
    let nsep = count_seps(name);
    if nsep > 15 {
        return Err(
            Error::InvalidInput(String::from_str("invalid crate name: ").concat(name)),
        );
    }
    let mut out: Vec<String> = Vec::new();
    out.push(name.to_owned());
    if nsep == 0 {
        proof {
            assert(out.deep_view() =~= name_variants_spec(name@));
        }
        return Ok(out);
    }
    let hy = build_sep_variant(name, true);
    let un = build_sep_variant(name, false);
    if crate::strutil::str_eq(name, hy.as_str()) {
        out.push(un);
        if nsep >= 2 {
            out.push(build_first_sep_variant(name));
        }
    } else if crate::strutil::str_eq(name, un.as_str()) {
        out.push(hy);
        if nsep >= 2 {
            out.push(build_first_sep_variant(name));
        }
    } else {
        out.push(hy);
        out.push(un);
    }
    proof {
        assert(out.deep_view() =~= name_variants_spec(name@));
    }
    Ok(out)
}

/// What `char::is_alphanumeric` decides for a character.
pub uninterp spec fn char_alphanumeric(c: char) -> bool;

/// Relies on `char::is_alphanumeric`: whether the character is in the
/// Unicode Alphabetic or Number categories, a function of the character
/// alone. Within ASCII those categories hold exactly the letters and the
/// digits, so every ASCII punctuation, space, or control character — `.`,
/// `/`, `;`, `$`, a backtick, a quote — is decided to be outside them.
#[verifier::external_body]
fn is_alphanumeric_char(c: char) -> (r: bool)
    ensures
        r == char_alphanumeric(c),
        c <= '\u{7f}' ==> r == ('a' <= c <= 'z' || 'A' <= c <= 'Z' || '0' <= c <= '9'),
{
    c.is_alphanumeric()
}

/// A character a crate name may hold: alphanumeric, a hyphen, or an
/// underscore. Within ASCII the alphanumerics are exactly the letters and
/// digits, so ASCII punctuation, spaces, and control characters are
/// decided to be outside the allow-list without consulting the classifier.
pub open spec fn allowed_name_char(c: char) -> bool {
    if c <= '\u{7f}' {
        ('a' <= c <= 'z' || 'A' <= c <= 'Z' || '0' <= c <= '9') || c == '-' || c == '_'
    } else {
        char_alphanumeric(c)
    }
}

/// Every character is alphanumeric, a hyphen, or an underscore.
pub open spec fn valid_crate_name(s: Seq<char>) -> bool {
    forall|i: int| 0 <= i < s.len() ==> allowed_name_char(#[trigger] s[i])
}

/// Accepts a crate name made of alphanumeric characters, hyphens, and
/// underscores only, and rejects anything else before any external process
/// sees it.
pub fn validate_crate_name(name: &str) -> (r: Result<(), Error>)
    ensures
        r is Ok <==> valid_crate_name(name@),
        r matches Err(e) ==> e is InvalidInput && e.message_view() == "invalid crate name: "@
            + name@,
{
    let len = name.unicode_len();
    let mut i: usize = 0;
    while i < len
        invariant
            len == name@.len(),
            i <= len,
            forall|k: int| 0 <= k < i ==> allowed_name_char(#[trigger] name@[k]),
        decreases len - i,
    {
        let c = name.get_char(i);
        if !is_alphanumeric_char(c) && c != '-' && c != '_' {
            proof {
                assert(!allowed_name_char(name@[i as int]));
            }
            return Err(
                Error::InvalidInput(String::from_str("invalid crate name: ").concat(name)),
            );
        }
        proof {
            assert(allowed_name_char(name@[i as int]));
        }
        i = i + 1;
    }
    Ok(())
}

/// The registry's download-locator settings, mirroring its published index
/// configuration: the URL template and the optional API base.
pub struct IndexSettings {
    /// Pattern for creating download URLs.
    pub dl: String,
    /// Base URL for publishing and other API calls.
    pub api: Option<String>,
}

/// What `crates_index` renders from a download template, a package name, a
/// version, and a checksum; nothing when the template cannot be filled in.
pub uninterp spec fn download_url_text(
    dl: Seq<char>,
    name: Seq<char>,
    version: Seq<char>,
    checksum: Seq<u8>,
) -> Option<Seq<char>>;

/// Relies on `crates_index::IndexConfig::download_url_with_checksum`:
/// renders the registry's URL template, substituting the name, version,
/// prefix, and checksum markers; a function of those arguments alone (the
/// `api` field is never read by it).
#[verifier::external_body]
fn render_download_url(dl: &str, name: &str, version: &str, checksum: &[u8]) -> (r: Option<
    String,
>)
    requires
        checksum@.len() == 32,
    ensures
        match (r, download_url_text(dl@, name@, version@, checksum@)) {
            (Some(u), Some(t)) => u@ == t,
            (None, None) => true,
            _ => false,
        },
{
    let config = crates_index::IndexConfig { dl: dl.to_string(), api: None };
    let mut ck = [0u8; 32];
    ck.copy_from_slice(checksum);
    config.download_url_with_checksum(name, version, &ck)
}

impl RegistryEntry {
    /// Well-formed: every version record carries a 32-byte checksum.
    pub open spec fn wf(self) -> bool {
        forall|i: int| 0 <= i < self.versions@.len() ==> (#[trigger] self.versions@[i]).checksum@.len() == 32
    }

    /// The download locator of the selected version, rendered from the
    /// registry's template. The version is selected as for `features`; a
    /// template that cannot be filled in is a `ParseError`, and success is
    /// owed whenever the selected version exists and the template renders.
    pub fn download_url(&self, settings: &IndexSettings, version: Option<&str>) -> (r: Result<
        String,
        Error,
    >)
        requires
            self.wf(),
        ensures
            ({
                let i = match version {
                    Some(v) => version_index(self.versions@, v@),
                    None => best_normal_index(self.versions@),
                };
                match r {
                    Ok(u) => {
                        &&& i != -1
                        &&& download_url_text(
                            settings.dl@,
                            self.name@,
                            self.versions@[i].version@,
                            self.versions@[i].checksum@,
                        ) == Some(u@)
                    },
                    Err(e) => {
                        ||| match version {
                            Some(v) => i == -1 && e is VersionNotFound && e.message_view()
                                == "version not found: "@ + v@,
                            None => i == -1 && e is NoVersions && e.message_view()
                                == "no versions found: "@ + self.name@,
                        }
                        ||| {
                            &&& i != -1
                            &&& e is ParseError
                            &&& e.message_view() == "could not create download url: "@
                                + self.name@
                            &&& download_url_text(
                                settings.dl@,
                                self.name@,
                                self.versions@[i].version@,
                                self.versions@[i].checksum@,
                            ) is None
                        }
                    },
                }
            }),
    {
        proof {
            lemma_version_index(
                self.versions@,
                match version {
                    Some(v) => v@,
                    None => Seq::empty(),
                },
            );
            lemma_best_normal_index(self.versions@);
        }
        let idx = match self.select_version(version) {
            Ok(i) => i,
            Err(e) => {
                return Err(e);
            },
        };
        let vi = &self.versions[idx];
        proof {
            assert(vi.checksum@.len() == 32);
        }
        match render_download_url(
            settings.dl.as_str(),
            self.name.as_str(),
            vi.version.as_str(),
            vi.checksum.as_slice(),
        ) {
            Some(u) => Ok(u),
            None => Err(
                Error::ParseError(
                    String::from_str("could not create download url: ").concat(
                        self.name.as_str(),
                    ),
                ),
            ),
        }
    }
}

} // verus!
