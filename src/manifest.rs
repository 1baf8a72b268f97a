use vstd::prelude::*;

use crate::error::CliError;
use crate::text::{lacks_char, lemma_line_unique, occurs_at, read_line};

verus! {

/// A character that may appear in a version identifier.
pub open spec fn is_version_char(c: char) -> bool {
    ('0' <= c && c <= '9') || ('a' <= c && c <= 'z') || ('A' <= c && c <= 'Z') || c == '.'
        || c == '-' || c == '+' || c == '_'
}

/// A version identifier: non-empty, made of letters, digits and `.`, `-`, `+`, `_`.
/// Such an identifier holds no path separator and no line break.
pub open spec fn valid_version(v: Seq<char>) -> bool {
    v.len() > 0 && forall|i: int| 0 <= i < v.len() ==> is_version_char(#[trigger] v[i])
}

/// Where the archive of version `v` lives under the install root `root`.
pub open spec fn tool_path(root: Seq<char>, v: Seq<char>) -> Seq<char> {
    root + "/tla2tools-"@ + v + ".jar"@
}

/// Where the archive of version `v` is downloaded to before it is renamed into place.
pub open spec fn download_path(root: Seq<char>, v: Seq<char>) -> Seq<char> {
    tool_path(root, v) + ".part"@
}

/// What a manifest records: the current version and the rollback slot.
pub ghost struct ManifestModel {
    pub current: Option<Seq<char>>,
    pub previous: Option<Seq<char>>,
}

impl ManifestModel {
    /// Every recorded identifier is valid, a previous version exists only beside a
    /// current one, and the two slots never name the same version.
    pub open spec fn wf(self) -> bool {
        &&& (self.current matches Some(v) ==> valid_version(v))
        &&& (self.previous matches Some(v) ==> valid_version(v))
        &&& (self.previous is Some ==> self.current is Some)
        &&& (self.current matches Some(c) ==> self.previous != Some(c))
    }

    /// The manifest after `v` is recorded as the newest installed version.
    pub open spec fn record(self, v: Seq<char>) -> ManifestModel {
        if self.current == Some(v) {
            self
        } else {
            ManifestModel { current: Some(v), previous: self.current }
        }
    }
}

/// The line that stores an optional slot under `key`.
pub open spec fn slot_line(key: Seq<char>, slot: Option<Seq<char>>) -> Seq<char> {
    match slot {
        Some(v) => key + v + "\n"@,
        None => Seq::empty(),
    }
}

/// The persisted text of a manifest.
pub open spec fn manifest_text(m: ManifestModel) -> Seq<char> {
    slot_line("current="@, m.current) + slot_line("previous="@, m.previous)
}

/// The view of an optional string.
pub open spec fn opt_view(o: Option<String>) -> Option<Seq<char>> {
    match o {
        Some(s) => Some(s@),
        None => None,
    }
}

/// The record of which version of the tool is installed, under one install root.
pub struct Manifest {
    pub install_root: String,
    pub current_version: Option<String>,
    pub previous_version: Option<String>,
}

impl View for Manifest {
    type V = ManifestModel;

    open spec fn view(&self) -> ManifestModel {
        ManifestModel {
            current: opt_view(self.current_version),
            previous: opt_view(self.previous_version),
        }
    }
}

/// Whether `c` may appear in a version identifier.
pub fn version_char(c: char) -> (r: bool)
    ensures
        r == is_version_char(c),
{
    ('0' <= c && c <= '9') || ('a' <= c && c <= 'z') || ('A' <= c && c <= 'Z') || c == '.'
        || c == '-' || c == '+' || c == '_'
}

/// Whether `v` is a valid version identifier.
pub fn is_valid_version(v: &str) -> (r: bool)
    ensures
        r == valid_version(v@),
{
    let n = v.unicode_len();
    if n == 0 {
        return false;
    }
    let mut i: usize = 0;
    while i < n
        invariant
            n == v@.len(),
            i <= n,
            forall|k: int| 0 <= k < i ==> is_version_char(#[trigger] v@[k]),
        decreases n - i,
    {
        if !version_char(v.get_char(i)) {
            return false;
        }
        i = i + 1;
    }
    true
}

/// A valid version identifier holds no line break.
pub proof fn lemma_version_has_no_newline(v: Seq<char>)
    requires
        valid_version(v),
    ensures
        lacks_char(v, '\n'),
{
    assert forall|i: int| 0 <= i < v.len() implies v[i] != '\n' by {
        assert(is_version_char(v[i]));
    }
}

/// Reads the line made of `key`, a version identifier and a line break that starts
/// at character `pos` of `text`, if there is one; returns the identifier and the
/// position after the line.
pub fn read_slot(text: &str, pos: usize, key: &str) -> (r: Option<(String, usize)>)
    requires
        pos <= text@.len(),
    ensures
        match r {
            Some((v, next)) => valid_version(v@) && next as int == pos + key@.len() + v@.len() + 1
                && occurs_at(text@, pos as int, key@ + v@ + "\n"@),
            None => forall|v: Seq<char>|
                valid_version(v) ==> !occurs_at(text@, pos as int, key@ + v + "\n"@),
        },
{
    match read_line(text, pos, key) {
        Some((v, next)) => {
            if is_valid_version(v.as_str()) {
                Some((v, next))
            } else {
                assert forall|u: Seq<char>| valid_version(u) implies !occurs_at(
                    text@,
                    pos as int,
                    key@ + u + "\n"@,
                ) by {
                    lemma_version_has_no_newline(u);
                    if occurs_at(text@, pos as int, key@ + u + "\n"@) {
                        lemma_line_unique(text@, pos as int, key@, u, v@);
                    }
                }
                None
            }
        },
        None => {
            assert forall|u: Seq<char>| valid_version(u) implies !occurs_at(
                text@,
                pos as int,
                key@ + u + "\n"@,
            ) by {
                lemma_version_has_no_newline(u);
            }
            None
        },
    }
}

/// Parses the persisted text of a manifest into its current and previous slots.
/// Only the exact text of a well-formed manifest is accepted.
pub fn parse_manifest(text: &str) -> (r: Option<(Option<String>, Option<String>)>)
    ensures
        match r {
            Some((c, p)) => {
                let m = ManifestModel { current: opt_view(c), previous: opt_view(p) };
                m.wf() && text@ == manifest_text(m)
            },
            None => forall|m: ManifestModel| m.wf() ==> text@ != manifest_text(m),
        },
{
    proof {
        reveal_strlit("current=");
        reveal_strlit("previous=");
        reveal_strlit("\n");
    }
    let ghost t = text@;
    let n = text.unicode_len();
    let r1 = read_slot(text, 0, "current=");
    let ghost g1 = r1;
    let (current, pos) = match r1 {
        Some((v, next)) => (Some(v), next),
        None => (None, 0),
    };
    let r2 = read_slot(text, pos, "previous=");
    let ghost g2 = r2;
    let (previous, end) = match r2 {
        Some((v, next)) => (Some(v), next),
        None => (None, pos),
    };
    let ghost parsed = ManifestModel { current: opt_view(current), previous: opt_view(previous) };
    assert forall|m: ManifestModel| m.wf() && t == manifest_text(m) implies m == parsed && end == n by {
        let l1 = slot_line("current="@, m.current);
        let l2 = slot_line("previous="@, m.previous);
        assert(t.subrange(0, l1.len() as int) =~= l1);
        assert(t.subrange(l1.len() as int, t.len() as int) =~= l2);
        match m.current {
            Some(c) => {
                assert(occurs_at(t, 0, "current="@ + c + "\n"@));
                match g1 {
                    Some((v, _)) => {
                        lemma_version_has_no_newline(c);
                        lemma_version_has_no_newline(v@);
                        lemma_line_unique(t, 0, "current="@, v@, c);
                    },
                    None => {},
                }
            },
            None => {
                match g1 {
                    Some((v, _)) => {
                        let w = "current="@ + v@ + "\n"@;
                        assert(t.subrange(0, w.len() as int)[0] == 'c');
                        match m.previous {
                            Some(p) => {
                                assert(l2[0] == 'p');
                            },
                            None => {},
                        }
                    },
                    None => {},
                }
            },
        }
        assert(pos == l1.len());
        match m.previous {
            Some(p) => {
                assert(t.subrange(l1.len() as int, t.len() as int) =~= "previous="@ + p + "\n"@);
                assert(occurs_at(t, l1.len() as int, "previous="@ + p + "\n"@));
                match g2 {
                    Some((v, _)) => {
                        lemma_version_has_no_newline(p);
                        lemma_version_has_no_newline(v@);
                        lemma_line_unique(t, l1.len() as int, "previous="@, v@, p);
                    },
                    None => {},
                }
            },
            None => {
                match g2 {
                    Some((v, _)) => {
                        assert(occurs_at(t, pos as int, "previous="@ + v@ + "\n"@));
                    },
                    None => {},
                }
            },
        }
    }
    if end != n {
        return None;
    }
    match &previous {
        Some(p) => match &current {
            None => {
                return None;
            },
            Some(c) => {
                if c.eq(p) {
                    assert(parsed.current == parsed.previous);
                    return None;
                }
            },
        },
        None => {},
    }
    assert(t.subrange(0, pos as int) =~= slot_line("current="@, parsed.current));
    assert(t.subrange(pos as int, end as int) =~= slot_line("previous="@, parsed.previous));
    assert(t =~= t.subrange(0, pos as int) + t.subrange(pos as int, end as int));
    Some((current, previous))
}

/// Builds the path of the archive of version `v` under the install root `root`.
pub fn tool_path_for(root: &str, v: &str) -> (r: String)
    ensures
        r@ == tool_path(root@, v@),
{
    let mut p = String::from_str(root);
    p.append("/tla2tools-");
    p.append(v);
    p.append(".jar");
    p
}

/// Builds the path that the archive of version `v` is downloaded to.
pub fn download_path_for(root: &str, v: &str) -> (r: String)
    ensures
        r@ == download_path(root@, v@),
{
    let mut p = tool_path_for(root, v);
    p.append(".part");
    p
}

fn append_slot(t: &mut String, key: &str, slot: &Option<String>)
    ensures
        final(t)@ == old(t)@ + slot_line(key@, opt_view(*slot)),
{
    match slot {
        Some(v) => {
            t.append(key);
            t.append(v.as_str());
            t.append("\n");
        },
        None => {
            assert(old(t)@ + Seq::<char>::empty() =~= old(t)@);
        },
    }
}

impl Manifest {
    pub open spec fn wf(&self) -> bool {
        self@.wf()
    }

    /// The manifest of an install root where nothing is installed yet.
    pub fn empty(install_root: String) -> (r: Manifest)
        ensures
            r.install_root == install_root,
            r@ == (ManifestModel { current: None, previous: None }),
            r.wf(),
    {
        Manifest { install_root, current_version: None, previous_version: None }
    }

    /// Loads the manifest of `install_root` from the persisted text, where a file
    /// exists (`Some`), or starts an empty one where none does (`None`).
    pub fn load(install_root: String, contents: Option<&str>) -> (r: Result<Manifest, CliError>)
        ensures
            match contents {
                None => r matches Ok(m) && m.install_root == install_root
                    && m@ == (ManifestModel { current: None, previous: None }),
                Some(text) => match r {
                    Ok(m) => m.install_root == install_root && m.wf()
                        && text@ == manifest_text(m@),
                    Err(e) => e == CliError::ManifestUnreadable
                        && forall|m: ManifestModel| m.wf() ==> text@ != manifest_text(m),
                },
            },
            r matches Ok(m) ==> m.wf(),
    {
        match contents {
            None => Ok(Manifest::empty(install_root)),
            Some(text) => match parse_manifest(text) {
                Some((current_version, previous_version)) => Ok(
                    Manifest { install_root, current_version, previous_version },
                ),
                None => Err(CliError::ManifestUnreadable),
            },
        }
    }

    /// The text that persists this manifest.
    pub fn to_text(&self) -> (r: String)
        ensures
            r@ == manifest_text(self@),
    {
        let mut t = String::new();
        append_slot(&mut t, "current=", &self.current_version);
        append_slot(&mut t, "previous=", &self.previous_version);
        t
    }

    /// The path of the current version's archive; every invocation resolves it first.
    pub fn current_tool_path(&self) -> (r: Result<String, CliError>)
        ensures
            match self@.current {
                Some(v) => r matches Ok(p) && p@ == tool_path(self.install_root@, v),
                None => r == Err::<String, CliError>(CliError::NoToolInstalled),
            },
    {
        match &self.current_version {
            Some(v) => Ok(tool_path_for(self.install_root.as_str(), v.as_str())),
            None => Err(CliError::NoToolInstalled),
        }
    }

    /// The path of the rollback version's archive, if one is recorded.
    pub fn previous_tool_path(&self) -> (r: Option<String>)
        ensures
            match self@.previous {
                Some(v) => r matches Some(p) && p@ == tool_path(self.install_root@, v),
                None => r is None,
            },
    {
        match &self.previous_version {
            Some(v) => Some(tool_path_for(self.install_root.as_str(), v.as_str())),
            None => None,
        }
    }

    /// Records `version` as the newest installed version: the old current version
    /// moves to the rollback slot. Recording the current version again changes nothing.
    pub fn record_new_version(&mut self, version: String)
        requires
            old(self).wf(),
            valid_version(version@),
        ensures
            final(self)@ == old(self)@.record(version@),
            final(self).install_root == old(self).install_root,
            final(self).wf(),
    {
        let same = match &self.current_version {
            Some(c) => c.eq(&version),
            None => false,
        };
        if !same {
            let old_current = self.current_version.take();
            self.previous_version = old_current;
            self.current_version = Some(version);
        }
    }
}

/// Distinct well-formed manifests persist as distinct texts.
pub proof fn lemma_manifest_text_injective(m1: ManifestModel, m2: ManifestModel)
    requires
        m1.wf(),
        m2.wf(),
        manifest_text(m1) == manifest_text(m2),
    ensures
        m1 == m2,
{
    reveal_strlit("current=");
    reveal_strlit("previous=");
    reveal_strlit("\n");
    let t = manifest_text(m1);
    let a1 = slot_line("current="@, m1.current);
    let a2 = slot_line("current="@, m2.current);
    let b1 = slot_line("previous="@, m1.previous);
    let b2 = slot_line("previous="@, m2.previous);
    assert(t.subrange(0, a1.len() as int) =~= a1);
    assert(t.subrange(0, a2.len() as int) =~= a2);
    match (m1.current, m2.current) {
        (Some(c1), Some(c2)) => {
            lemma_version_has_no_newline(c1);
            lemma_version_has_no_newline(c2);
            lemma_line_unique(t, 0, "current="@, c1, c2);
        },
        (Some(c1), None) => {
            assert(a1[0] == 'c');
            if m2.previous is Some {
                assert(b2[0] == 'p');
            }
        },
        (None, Some(c2)) => {
            assert(a2[0] == 'c');
            if m1.previous is Some {
                assert(b1[0] == 'p');
            }
        },
        (None, None) => {},
    }
    assert(a1 == a2);
    assert(b1 =~= t.subrange(a1.len() as int, t.len() as int));
    assert(b2 =~= t.subrange(a1.len() as int, t.len() as int));
    match (m1.previous, m2.previous) {
        (Some(p1), Some(p2)) => {
            lemma_version_has_no_newline(p1);
            lemma_version_has_no_newline(p2);
            assert(b1 == b2);
            assert(b1.subrange(0, b1.len() as int) =~= b1);
            assert(b2.subrange(0, b2.len() as int) =~= b2);
            assert(occurs_at(b1, 0, "previous="@ + p1 + "\n"@));
            assert(occurs_at(b1, 0, "previous="@ + p2 + "\n"@));
            lemma_line_unique(b1, 0, "previous="@, p1, p2);
        },
        _ => {},
    }
}

/// The manifest after recording each of `vs` in turn, starting from `m`.
pub open spec fn replay(m: ManifestModel, vs: Seq<Seq<char>>) -> ManifestModel
    decreases vs.len(),
{
    if vs.len() == 0 {
        m
    } else {
        replay(m, vs.drop_last()).record(vs.last())
    }
}

/// After any run of recorded versions, the manifest is well formed, and the only
/// well-formed manifest that loads from its persisted text is that manifest itself.
/// Because a new text replaces the file only once it is written in full, an
/// interrupted write leaves the text of the state before it, which loads back as that
/// state: loading never sees a mixture of two states.
pub proof fn lemma_recorded_states_load_back(
    m0: ManifestModel,
    vs: Seq<Seq<char>>,
    loaded: ManifestModel,
)
    requires
        m0.wf(),
        forall|i: int| 0 <= i < vs.len() ==> valid_version(#[trigger] vs[i]),
        loaded.wf(),
        manifest_text(loaded) == manifest_text(replay(m0, vs)),
    ensures
        replay(m0, vs).wf(),
        loaded == replay(m0, vs),
{
    lemma_replay_wf(m0, vs);
    lemma_manifest_text_injective(loaded, replay(m0, vs));
}

proof fn lemma_replay_wf(m0: ManifestModel, vs: Seq<Seq<char>>)
    requires
        m0.wf(),
        forall|i: int| 0 <= i < vs.len() ==> valid_version(#[trigger] vs[i]),
    ensures
        replay(m0, vs).wf(),
    decreases vs.len(),
{
    if vs.len() > 0 {
        let init = vs.drop_last();
        assert forall|i: int| 0 <= i < init.len() implies valid_version(#[trigger] init[i]) by {
            assert(init[i] == vs[i]);
        }
        lemma_replay_wf(m0, init);
        assert(valid_version(vs[vs.len() - 1]));
    }
}

/// Recording `v` and loading the manifest back makes `v` current, so the current
/// tool path is the one named after `v`, and it contains `v`'s identifier.
pub proof fn lemma_recorded_version_resolves(
    m: ManifestModel,
    v: Seq<char>,
    root: Seq<char>,
    loaded: ManifestModel,
)
    requires
        m.wf(),
        valid_version(v),
        loaded.wf(),
        manifest_text(loaded) == manifest_text(m.record(v)),
    ensures
        loaded.current == Some(v),
        occurs_at(tool_path(root, v), (root.len() + "/tla2tools-"@.len()) as int, v),
{
    lemma_manifest_text_injective(loaded, m.record(v));
    let p = tool_path(root, v);
    let s = (root.len() + "/tla2tools-"@.len()) as int;
    assert(p.subrange(s, s + v.len()) =~= v);
}

} // verus!
