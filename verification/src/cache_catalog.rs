//! The versioned catalog of application cache locations, its validation, and
//! the classification of a path by whole path components (case-insensitively
//! on Windows).
use crate::text::{
    blank, chars_eq, chars_eq_ignore_ascii_case, chars_of, concat, eq_ignore_ascii_case,
    is_blank, owned, split_chars, split_on,
};
use vstd::prelude::*;

verus! {

/// The operating system a definition applies to.
#[derive(Clone, Copy, Debug, PartialEq, Eq, Structural)]
pub enum Platform {
    Macos,
    Windows,
}

/// The kind of cache.
#[derive(Clone, Copy, Debug, PartialEq, Eq, Structural)]
pub enum CacheCategory {
    BrowserCache,
    MediaCache,
    OperatingSystemCache,
}

/// How sure a definition is.
#[derive(Clone, Copy, Debug, PartialEq, Eq, Structural)]
pub enum Confidence {
    High,
    Medium,
    Low,
}

/// The directory a definition's relative path starts from.
#[derive(Clone, Copy, Debug, PartialEq, Eq, Structural)]
pub enum CachePathRoot {
    Home,
    LocalAppData,
    RoamingAppData,
    SystemCache,
}

/// Where a definition's path comes from.
#[derive(Clone, Copy, Debug, PartialEq, Eq, Structural)]
pub enum CachePathSource {
    Fixed,
    Configuration,
    UserSpecified,
}

/// A cache location: a root and a `/`-separated path under it.
#[derive(Clone, Debug, PartialEq, Eq)]
pub struct CachePathRule {
    pub root: CachePathRoot,
    pub relative_path: String,
    pub source: CachePathSource,
}

/// One application cache definition.
#[derive(Clone, Debug, PartialEq, Eq)]
pub struct CacheDefinition {
    pub id: String,
    pub definition_version: u32,
    pub platform: Platform,
    pub application_name: String,
    pub version_constraint: String,
    pub category: CacheCategory,
    pub path: CachePathRule,
    pub confidence: Confidence,
    pub evidence: Vec<String>,
    pub regenerable: bool,
    pub cleanup_impact: String,
}

/// A versioned list of cache definitions.
#[derive(Clone, Debug, PartialEq, Eq)]
pub struct CacheCatalog {
    pub catalog_version: String,
    pub definitions: Vec<CacheDefinition>,
}

/// The components of a catalog-style relative path: nonempty, `/` as the only
/// separator, not starting with a separator, and no empty, `.` or `..` component.
pub open spec fn relative_components_spec(s: Seq<char>) -> Result<Seq<Seq<char>>, Seq<char>> {
    if s.len() == 0 || s[0] == '/' || s.contains('\\') {
        Err("区切り文字は相対パスの / のみ使用できます"@)
    } else {
        let parts = split_on(s, '/');
        if exists|i: int|
            0 <= i < parts.len() && (#[trigger] parts[i] == Seq::<char>::empty() || parts[i]
                == seq!['.'] || parts[i] == seq!['.', '.']) {
            Err("空要素、.、.. は使用できません"@)
        } else {
            Ok(parts)
        }
    }
}

/// Two components match: exactly on macOS, up to ASCII case on Windows.
pub open spec fn components_match(a: Seq<char>, b: Seq<char>, platform: Platform) -> bool {
    match platform {
        Platform::Windows => eq_ignore_ascii_case(a, b),
        Platform::Macos => a == b,
    }
}

/// The definition path's components begin the candidate's components.
pub open spec fn component_prefix_spec(def: Seq<char>, cand: Seq<char>, platform: Platform) -> bool {
    match (relative_components_spec(def), relative_components_spec(cand)) {
        (Ok(d), Ok(c)) => d.len() <= c.len() && forall|i: int|
            0 <= i < d.len() ==> components_match(#[trigger] d[i], c[i], platform),
        _ => false,
    }
}

/// A definition classifies a path under a root on a platform.
pub open spec fn definition_matches(
    d: CacheDefinition,
    platform: Platform,
    root: CachePathRoot,
    rel: Seq<char>,
) -> bool {
    d.platform == platform && d.path.root == root && component_prefix_spec(
        d.path.relative_path@,
        rel,
        platform,
    )
}

/// The definitions among the first `k` that classify the path, in catalog order.
pub open spec fn matching(
    defs: Seq<CacheDefinition>,
    platform: Platform,
    root: CachePathRoot,
    rel: Seq<char>,
    k: int,
) -> Seq<CacheDefinition>
    decreases k,
{
    if k <= 0 {
        Seq::empty()
    } else {
        let prev = matching(defs, platform, root, rel, k - 1);
        if definition_matches(defs[k - 1], platform, root, rel) {
            prev.push(defs[k - 1])
        } else {
            prev
        }
    }
}

/// The required fields of a definition are present: a nonzero version,
/// non-blank names, constraint and impact, and at least one non-blank evidence.
pub open spec fn required_fields_present(d: CacheDefinition) -> bool {
    &&& d.definition_version != 0
    &&& !is_blank(d.application_name@)
    &&& !is_blank(d.version_constraint@)
    &&& d.evidence@.len() > 0
    &&& forall|i: int| 0 <= i < d.evidence@.len() ==> !is_blank(#[trigger] d.evidence@[i]@)
    &&& !is_blank(d.cleanup_impact@)
}

/// The message that rejects definition `k` given the definitions before it, if any.
pub open spec fn definition_error(defs: Seq<CacheDefinition>, k: int) -> Option<Seq<char>> {
    let d = defs[k];
    if is_blank(d.id@) || exists|j: int| 0 <= j < k && (#[trigger] defs[j]).id@ == d.id@ {
        Some("キャッシュ定義IDが空または重複しています: "@ + d.id@)
    } else if !required_fields_present(d) {
        Some("キャッシュ定義の必須項目が不足しています: "@ + d.id@)
    } else {
        match relative_components_spec(d.path.relative_path@) {
            Err(reason) => Some("キャッシュ定義の相対パスが不正です ("@ + d.id@ + "): "@ + reason),
            Ok(_) => None,
        }
    }
}

/// The first rejection among the first `k` definitions.
pub open spec fn first_error(defs: Seq<CacheDefinition>, k: int) -> Option<Seq<char>>
    decreases k,
{
    if k <= 0 {
        None
    } else {
        match first_error(defs, k - 1) {
            Some(e) => Some(e),
            None => definition_error(defs, k - 1),
        }
    }
}

/// The result of validating a catalog.
pub open spec fn validate_spec(c: CacheCatalog) -> Result<(), Seq<char>> {
    if is_blank(c.catalog_version@) {
        Err("キャッシュ定義のカタログバージョンが空です"@)
    } else if c.definitions@.len() == 0 {
        Err("キャッシュ定義がありません"@)
    } else {
        match first_error(c.definitions@, c.definitions@.len() as int) {
            Some(e) => Err(e),
            None => Ok(()),
        }
    }
}

/// The components of a catalog-style relative path, or why it is rejected.
fn relative_components(path: &str) -> (r: Result<Vec<Vec<char>>, &'static str>)
    ensures
        match r {
            Ok(v) => relative_components_spec(path@) matches Ok(parts) && v@.len() == parts.len()
                && forall|i: int| 0 <= i < parts.len() ==> (#[trigger] v@[i])@ == parts[i],
            Err(e) => relative_components_spec(path@) == Err::<Seq<Seq<char>>, Seq<char>>(e@),
        },
{
    let v = chars_of(path);
    let mut has_backslash = false;
    let mut i: usize = 0;
    while i < v.len()
        invariant
            i <= v.len(),
            has_backslash == v@.take(i as int).contains('\\'),
        decreases v.len() - i,
    {
        assert(v@.take(i + 1) == v@.take(i as int).push(v@[i as int]));
        if v[i] == '\\' {
            assert(v@.take(i + 1)[i as int] == '\\');
            has_backslash = true;
        } else {
            proof {
                let t1 = v@.take(i + 1);
                if t1.contains('\\') {
                    let k = choose|k: int| 0 <= k < t1.len() && t1[k] == '\\';
                    assert(v@.take(i as int)[k] == '\\');
                }
            }
        }
        i = i + 1;
    }
    assert(v@.take(v.len() as int) == v@);
    if v.len() == 0 || v[0] == '/' || has_backslash {
        return Err("区切り文字は相対パスの / のみ使用できます");
    }
    let parts = split_chars(&v, '/');
    let ghost sp = split_on(path@, '/');
    let mut j: usize = 0;
    while j < parts.len()
        invariant
            j <= parts.len(),
            sp == split_on(path@, '/'),
            !(path@.len() == 0 || path@[0] == '/' || path@.contains('\\')),
            parts@.len() == sp.len(),
            forall|k: int| 0 <= k < parts@.len() ==> #[trigger] parts@[k]@ == sp[k],
            forall|k: int|
                0 <= k < j ==> !(#[trigger] sp[k] == Seq::<char>::empty() || sp[k] == seq!['.']
                    || sp[k] == seq!['.', '.']),
        decreases parts.len() - j,
    {
        let p = &parts[j];
        assert(p@ == sp[j as int]);
        let bad = p.len() == 0 || (p.len() == 1 && p[0] == '.') || (p.len() == 2 && p[0] == '.'
            && p[1] == '.');
        proof {
            if p@ == seq!['.'] {
                assert(p@[0] == '.');
            }
            if p@ == seq!['.', '.'] {
                assert(p@[0] == '.' && p@[1] == '.');
            }
            if p.len() == 1 && p@[0] == '.' {
                assert(p@ =~= seq!['.']);
            }
            if p.len() == 2 && p@[0] == '.' && p@[1] == '.' {
                assert(p@ =~= seq!['.', '.']);
            }
            if p.len() == 0 {
                assert(p@ =~= Seq::<char>::empty());
            }
        }
        if bad {
            assert(sp[j as int] == Seq::<char>::empty() || sp[j as int] == seq!['.'] || sp[j as int]
                == seq!['.', '.']);
            return Err("空要素、.、.. は使用できません");
        }
        j = j + 1;
    }
    Ok(parts)
}

/// Whether the components of `definition` begin the components of `candidate`,
/// compared exactly on macOS and up to ASCII case on Windows.
fn path_has_component_prefix(definition: &str, candidate: &str, platform: Platform) -> (r: bool)
    ensures
        r == component_prefix_spec(definition@, candidate@, platform),
{
    let d = match relative_components(definition) {
        Ok(d) => d,
        Err(_) => {
            return false;
        },
    };
    let c = match relative_components(candidate) {
        Ok(c) => c,
        Err(_) => {
            return false;
        },
    };
    let ghost dv = relative_components_spec(definition@)->Ok_0;
    let ghost cv = relative_components_spec(candidate@)->Ok_0;
    if d.len() > c.len() {
        return false;
    }
    let mut i: usize = 0;
    while i < d.len()
        invariant
            i <= d.len() <= c.len(),
            relative_components_spec(definition@) == Ok::<Seq<Seq<char>>, Seq<char>>(dv),
            relative_components_spec(candidate@) == Ok::<Seq<Seq<char>>, Seq<char>>(cv),
            d@.len() == dv.len(),
            c@.len() == cv.len(),
            forall|k: int| 0 <= k < dv.len() ==> (#[trigger] d@[k])@ == dv[k],
            forall|k: int| 0 <= k < cv.len() ==> (#[trigger] c@[k])@ == cv[k],
            forall|k: int| 0 <= k < i ==> components_match(#[trigger] dv[k], cv[k], platform),
        decreases d.len() - i,
    {
        assert(d@[i as int]@ == dv[i as int]);
        assert(c@[i as int]@ == cv[i as int]);
        let same = match platform {
            Platform::Windows => chars_eq_ignore_ascii_case(&d[i], &c[i]),
            Platform::Macos => chars_eq(&d[i], &c[i]),
        };
        if !same {
            assert(!components_match(dv[i as int], cv[i as int], platform));
            return false;
        }
        i = i + 1;
    }
    true
}

fn evidence_present(evidence: &Vec<String>) -> (r: bool)
    ensures
        r == (evidence@.len() > 0 && forall|i: int|
            0 <= i < evidence@.len() ==> !is_blank(#[trigger] evidence@[i]@)),
{
    if evidence.len() == 0 {
        return false;
    }
    let mut i: usize = 0;
    while i < evidence.len()
        invariant
            i <= evidence.len(),
            forall|k: int| 0 <= k < i ==> !is_blank(#[trigger] evidence@[k]@),
        decreases evidence.len() - i,
    {
        if blank(evidence[i].as_str()) {
            return false;
        }
        i = i + 1;
    }
    true
}

fn id_seen_before(defs: &Vec<CacheDefinition>, k: usize) -> (r: bool)
    requires
        k < defs.len(),
    ensures
        r == exists|j: int| 0 <= j < k && (#[trigger] defs@[j]).id@ == defs@[k as int].id@,
{
    let mut j: usize = 0;
    while j < k
        invariant
            j <= k < defs.len(),
            forall|m: int| 0 <= m < j ==> (#[trigger] defs@[m]).id@ != defs@[k as int].id@,
        decreases k - j,
    {
        if str_eq_strings(&defs[j].id, &defs[k].id) {
            return true;
        }
        j = j + 1;
    }
    false
}

fn str_eq_strings(a: &String, b: &String) -> (r: bool)
    ensures
        r == (a@ == b@),
{
    crate::text::str_eq(a.as_str(), b.as_str())
}

impl CacheCatalog {
    /// Checks the catalog: a non-blank version, at least one definition, and for
    /// each definition in order a unique non-blank ID, its required fields, and
    /// a well-formed relative path. The first problem found is reported.
    pub fn validate(&self) -> (r: Result<(), String>)
        ensures
            match r {
                Ok(()) => validate_spec(*self) == Ok::<(), Seq<char>>(()),
                Err(e) => validate_spec(*self) == Err::<(), Seq<char>>(e@),
            },
    {
        if blank(self.catalog_version.as_str()) {
            return Err(owned("キャッシュ定義のカタログバージョンが空です"));
        }
        if self.definitions.len() == 0 {
            return Err(owned("キャッシュ定義がありません"));
        }
        let ghost defs = self.definitions@;
        let mut k: usize = 0;
        while k < self.definitions.len()
            invariant
                k <= self.definitions.len(),
                defs == self.definitions@,
                !is_blank(self.catalog_version@),
                defs.len() > 0,
                first_error(defs, k as int) is None,
            decreases self.definitions.len() - k,
        {
            let d = &self.definitions[k];
            if blank(d.id.as_str()) || id_seen_before(&self.definitions, k) {
                proof {
                    lemma_first_error_stays(defs, k + 1);
                }
                return Err(concat("キャッシュ定義IDが空または重複しています: ", d.id.as_str()));
            }
            if d.definition_version == 0 || blank(d.application_name.as_str()) || blank(
                d.version_constraint.as_str(),
            ) || !evidence_present(&d.evidence) || blank(d.cleanup_impact.as_str()) {
                proof {
                    lemma_first_error_stays(defs, k + 1);
                }
                return Err(concat("キャッシュ定義の必須項目が不足しています: ", d.id.as_str()));
            }
            match relative_components(d.path.relative_path.as_str()) {
                Err(reason) => {
                    proof {
                        lemma_first_error_stays(defs, k + 1);
                    }
                    let a = concat("キャッシュ定義の相対パスが不正です (", d.id.as_str());
                    let b = concat(a.as_str(), "): ");
                    return Err(concat(b.as_str(), reason));
                },
                Ok(_) => {},
            }
            k = k + 1;
        }
        Ok(())
    }

    /// The definitions that classify `relative_path` under `root` on `platform`,
    /// in catalog order; paths match by whole components only.
    pub fn classify(&self, platform: Platform, root: CachePathRoot, relative_path: &str) -> (r: Vec<
        &CacheDefinition,
    >)
        ensures
            r@.len() == matching(
                self.definitions@,
                platform,
                root,
                relative_path@,
                self.definitions@.len() as int,
            ).len(),
            forall|i: int|
                0 <= i < r@.len() ==> *(#[trigger] r@[i]) == matching(
                    self.definitions@,
                    platform,
                    root,
                    relative_path@,
                    self.definitions@.len() as int,
                )[i],
    {
        let ghost defs = self.definitions@;
        let mut out: Vec<&CacheDefinition> = Vec::new();
        let mut k: usize = 0;
        while k < self.definitions.len()
            invariant
                k <= self.definitions.len(),
                defs == self.definitions@,
                out@.len() == matching(defs, platform, root, relative_path@, k as int).len(),
                forall|i: int|
                    0 <= i < out@.len() ==> *(#[trigger] out@[i]) == matching(
                        defs,
                        platform,
                        root,
                        relative_path@,
                        k as int,
                    )[i],
            decreases self.definitions.len() - k,
        {
            let d = &self.definitions[k];
            if d.platform == platform && d.path.root == root && path_has_component_prefix(
                d.path.relative_path.as_str(),
                relative_path,
                platform,
            ) {
                out.push(d);
            }
            k = k + 1;
        }
        out
    }
}

/// The definitions of the bundled catalog, in order: ID, platform,
/// application, root, relative path and evidence.
pub open spec fn bundled_rules() -> Seq<(Seq<char>, Platform, Seq<char>, CachePathRoot, Seq<char>, Seq<char>)> {
    seq![
        ("safari.macos.cache"@, Platform::Macos, "Safari"@, CachePathRoot::Home, "Library/Caches/com.apple.Safari"@, "Safariのキャッシュは~/Library/Caches/com.apple.Safariに保存される"@),
        ("chrome.macos.cache"@, Platform::Macos, "Google Chrome"@, CachePathRoot::Home, "Library/Caches/Google/Chrome"@, "Chromeのディスクキャッシュは~/Library/Caches/Google/Chromeに保存される"@),
        ("firefox.macos.profiles-cache"@, Platform::Macos, "Mozilla Firefox"@, CachePathRoot::Home, "Library/Caches/Firefox/Profiles"@, "Firefoxのプロファイル別キャッシュは~/Library/Caches/Firefox/Profilesに保存される"@),
        ("chrome.windows.default-cache"@, Platform::Windows, "Google Chrome"@, CachePathRoot::LocalAppData, "Google/Chrome/User Data/Default/Cache"@, "Chromeの既定プロファイルのキャッシュは%LOCALAPPDATA%\\Google\\Chrome\\User Data\\Default\\Cacheに保存される"@),
        ("edge.windows.default-cache"@, Platform::Windows, "Microsoft Edge"@, CachePathRoot::LocalAppData, "Microsoft/Edge/User Data/Default/Cache"@, "Edgeの既定プロファイルのキャッシュは%LOCALAPPDATA%\\Microsoft\\Edge\\User Data\\Default\\Cacheに保存される"@),
        ("firefox.windows.profiles-cache"@, Platform::Windows, "Mozilla Firefox"@, CachePathRoot::LocalAppData, "Mozilla/Firefox/Profiles"@, "Firefoxのプロファイル別キャッシュは%LOCALAPPDATA%\\Mozilla\\Firefox\\Profilesに保存される"@),
    ]
}

/// The cleanup impact stated for every bundled browser cache.
pub open spec fn browser_cleanup_impact() -> Seq<char> {
    "ブラウザーが必要に応じて再取得するため、削除後しばらくはページの表示が遅くなる場合があります"@
}

/// A definition is the bundled browser-cache definition for a rule: version 1
/// for any application version, fixed path, high confidence, regenerable.
pub open spec fn is_browser_definition(
    d: CacheDefinition,
    rule: (Seq<char>, Platform, Seq<char>, CachePathRoot, Seq<char>, Seq<char>),
) -> bool {
    &&& d.id@ == rule.0
    &&& d.definition_version == 1
    &&& d.platform == rule.1
    &&& d.application_name@ == rule.2
    &&& d.version_constraint@ == "*"@
    &&& d.category == CacheCategory::BrowserCache
    &&& d.path.root == rule.3
    &&& d.path.relative_path@ == rule.4
    &&& d.path.source == CachePathSource::Fixed
    &&& d.confidence == Confidence::High
    &&& d.evidence@.len() == 1
    &&& d.evidence@[0]@ == rule.5
    &&& d.regenerable
    &&& d.cleanup_impact@ == browser_cleanup_impact()
}

/// The bundled catalog: version `2026.08.1` with the definitions of `bundled_rules`.
pub open spec fn has_bundled_rules(c: CacheCatalog) -> bool {
    &&& c.catalog_version@ == "2026.08.1"@
    &&& c.definitions@.len() == bundled_rules().len()
    &&& forall|i: int|
        0 <= i < c.definitions@.len() ==> is_browser_definition(
            #[trigger] c.definitions@[i],
            bundled_rules()[i],
        )
}

fn browser_definition(
    id: &str,
    platform: Platform,
    application_name: &str,
    root: CachePathRoot,
    relative_path: &str,
    evidence: &str,
) -> (d: CacheDefinition)
    ensures
        is_browser_definition(d, (id@, platform, application_name@, root, relative_path@, evidence@)),
{
    let mut evidence_list: Vec<String> = Vec::new();
    evidence_list.push(owned(evidence));
    CacheDefinition {
        id: owned(id),
        definition_version: 1,
        platform,
        application_name: owned(application_name),
        version_constraint: owned("*"),
        category: CacheCategory::BrowserCache,
        path: CachePathRule { root, relative_path: owned(relative_path), source: CachePathSource::Fixed },
        confidence: Confidence::High,
        evidence: evidence_list,
        regenerable: true,
        cleanup_impact: owned("ブラウザーが必要に応じて再取得するため、削除後しばらくはページの表示が遅くなる場合があります"),
    }
}

/// The catalog shipped with the application, when it passes validation.
pub fn bundled_catalog() -> (r: Result<CacheCatalog, String>)
    ensures
        match r {
            Ok(c) => has_bundled_rules(c) && validate_spec(c) == Ok::<(), Seq<char>>(()),
            Err(e) => exists|c: CacheCatalog| has_bundled_rules(c) && validate_spec(c) == Err::<
                (),
                Seq<char>,
            >(e@),
        },
{
    let mut definitions: Vec<CacheDefinition> = Vec::new();
    definitions.push(browser_definition(
        "safari.macos.cache",
        Platform::Macos,
        "Safari",
        CachePathRoot::Home,
        "Library/Caches/com.apple.Safari",
        "Safariのキャッシュは~/Library/Caches/com.apple.Safariに保存される",
    ));
    definitions.push(browser_definition(
        "chrome.macos.cache",
        Platform::Macos,
        "Google Chrome",
        CachePathRoot::Home,
        "Library/Caches/Google/Chrome",
        "Chromeのディスクキャッシュは~/Library/Caches/Google/Chromeに保存される",
    ));
    definitions.push(browser_definition(
        "firefox.macos.profiles-cache",
        Platform::Macos,
        "Mozilla Firefox",
        CachePathRoot::Home,
        "Library/Caches/Firefox/Profiles",
        "Firefoxのプロファイル別キャッシュは~/Library/Caches/Firefox/Profilesに保存される",
    ));
    definitions.push(browser_definition(
        "chrome.windows.default-cache",
        Platform::Windows,
        "Google Chrome",
        CachePathRoot::LocalAppData,
        "Google/Chrome/User Data/Default/Cache",
        "Chromeの既定プロファイルのキャッシュは%LOCALAPPDATA%\\Google\\Chrome\\User Data\\Default\\Cacheに保存される",
    ));
    definitions.push(browser_definition(
        "edge.windows.default-cache",
        Platform::Windows,
        "Microsoft Edge",
        CachePathRoot::LocalAppData,
        "Microsoft/Edge/User Data/Default/Cache",
        "Edgeの既定プロファイルのキャッシュは%LOCALAPPDATA%\\Microsoft\\Edge\\User Data\\Default\\Cacheに保存される",
    ));
    definitions.push(browser_definition(
        "firefox.windows.profiles-cache",
        Platform::Windows,
        "Mozilla Firefox",
        CachePathRoot::LocalAppData,
        "Mozilla/Firefox/Profiles",
        "Firefoxのプロファイル別キャッシュは%LOCALAPPDATA%\\Mozilla\\Firefox\\Profilesに保存される",
    ));
    let catalog = CacheCatalog { catalog_version: owned("2026.08.1"), definitions };
    assert(has_bundled_rules(catalog));
    match catalog.validate() {
        Ok(()) => Ok(catalog),
        Err(e) => Err(e),
    }
}

proof fn lemma_first_error_stays(defs: Seq<CacheDefinition>, k: int)
    requires
        0 <= k <= defs.len(),
        first_error(defs, k) is Some,
    ensures
        first_error(defs, defs.len() as int) == first_error(defs, k),
    decreases defs.len() - k,
{
    if k < defs.len() {
        lemma_first_error_stays(defs, k + 1);
    }
}

proof fn lemma_no_error_before(defs: Seq<CacheDefinition>, k: int)
    requires
        0 <= k <= defs.len(),
        first_error(defs, k) is None,
    ensures
        forall|m: int| 0 <= m < k ==> definition_error(defs, m) is None,
    decreases k,
{
    if k > 0 {
        lemma_no_error_before(defs, k - 1);
    }
}

/// A catalog that passes validation has a non-blank version, at least one
/// definition, distinct non-blank IDs, the required fields of every definition,
/// and only well-formed relative paths.
pub proof fn lemma_valid_catalog_well_formed(c: CacheCatalog)
    requires
        validate_spec(c) is Ok,
    ensures
        !is_blank(c.catalog_version@),
        c.definitions@.len() > 0,
        forall|i: int|
            0 <= i < c.definitions@.len() ==> {
                &&& !is_blank((#[trigger] c.definitions@[i]).id@)
                &&& required_fields_present(c.definitions@[i])
                &&& relative_components_spec(c.definitions@[i].path.relative_path@) is Ok
            },
        forall|i: int, j: int|
            0 <= i < j < c.definitions@.len() ==> (#[trigger] c.definitions@[i]).id@
                != (#[trigger] c.definitions@[j]).id@,
{
    let defs = c.definitions@;
    lemma_no_error_before(defs, defs.len() as int);
    assert forall|i: int| 0 <= i < defs.len() implies {
        &&& !is_blank((#[trigger] defs[i]).id@)
        &&& required_fields_present(defs[i])
        &&& relative_components_spec(defs[i].path.relative_path@) is Ok
    } by {
        assert(definition_error(defs, i) is None);
    }
    assert forall|i: int, j: int| 0 <= i < j < defs.len() implies (#[trigger] defs[i]).id@
        != (#[trigger] defs[j]).id@ by {
        assert(definition_error(defs, j) is None);
    }
}

} // verus!
