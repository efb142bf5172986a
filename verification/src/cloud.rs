//! Cloud sync folders as recovery destinations: the providers, where a
//! recovery goes inside a sync folder, and the candidate folders of a home
//! directory. Finding which folders exist is left to the caller.

use crate::engine::recovery::path_join;
use crate::strings::str_eq;
use vstd::prelude::*;

verus! {

/// A cloud storage provider supported as a recovery destination.
#[derive(Debug, Clone, Copy, PartialEq, Eq, Hash, Structural)]
pub enum CloudProvider {
    OneDrivePersonal,
    OneDriveBusiness,
    GoogleDrive,
    Dropbox,
}

impl CloudProvider {
    /// Name shown to the user.
    pub fn display_name(self) -> (r: &'static str)
        ensures
            r@ == (match self {
                CloudProvider::OneDrivePersonal => "OneDrive"@,
                CloudProvider::OneDriveBusiness => "OneDrive for Business"@,
                CloudProvider::GoogleDrive => "Google Drive"@,
                CloudProvider::Dropbox => "Dropbox"@,
            }),
    {
        match self {
            CloudProvider::OneDrivePersonal => "OneDrive",
            CloudProvider::OneDriveBusiness => "OneDrive for Business",
            CloudProvider::GoogleDrive => "Google Drive",
            CloudProvider::Dropbox => "Dropbox",
        }
    }

    /// Icon identifier; both OneDrive flavours share one.
    pub fn icon_name(self) -> (r: &'static str)
        ensures
            r@ == (match self {
                CloudProvider::OneDrivePersonal | CloudProvider::OneDriveBusiness => "onedrive"@,
                CloudProvider::GoogleDrive => "google-drive"@,
                CloudProvider::Dropbox => "dropbox"@,
            }),
    {
        match self {
            CloudProvider::OneDrivePersonal | CloudProvider::OneDriveBusiness => "onedrive",
            CloudProvider::GoogleDrive => "google-drive",
            CloudProvider::Dropbox => "dropbox",
        }
    }
}

/// A detected cloud sync folder on this machine.
#[derive(Debug, Clone)]
pub struct CloudDestination {
    pub provider: CloudProvider,
    /// Human-readable label (e.g. "OneDrive - John", "Dropbox").
    pub label: String,
    /// The local sync folder path.
    pub local_path: String,
    /// Free space in the local sync folder, if known.
    pub free_bytes: Option<u64>,
    /// Whether the sync client appears to be running.
    pub sync_active: bool,
}

impl CloudDestination {
    /// Where recovered files go: `<sync folder>/TriRecover Recovery`.
    pub fn recovery_dir(&self) -> (r: String)
        ensures
            r@ == path_join(self.local_path@, "TriRecover Recovery"@),
    {
        join_str(self.local_path.as_str(), "TriRecover Recovery")
    }
}

/// A destination's recovery folder lies inside its sync folder: the path
/// starts with the sync folder's path and ends with `TriRecover Recovery`.
pub proof fn law_recovery_dir_inside(local_path: Seq<char>)
    ensures
        path_join(local_path, "TriRecover Recovery"@).subrange(0, local_path.len() as int) == local_path,
        ({
            let r = path_join(local_path, "TriRecover Recovery"@);
            let n = "TriRecover Recovery"@.len();
            r.len() >= local_path.len() + n && r.subrange(r.len() - n, r.len() as int) == "TriRecover Recovery"@
        }),
{
    reveal_strlit("TriRecover Recovery");
    let b = "TriRecover Recovery"@;
    assert(b[0] == 'T');
    let r = path_join(local_path, b);
    if local_path.len() == 0 || local_path.last() == '/' {
        assert(r.subrange(0, local_path.len() as int) =~= local_path);
        assert(r.subrange(r.len() - b.len(), r.len() as int) =~= b);
    } else {
        assert(r.subrange(0, local_path.len() as int) =~= local_path);
        assert(r.subrange(r.len() - b.len(), r.len() as int) =~= b);
    }
}

/// `a` joined with `b` as [`path_join`] says.
pub fn join_str(a: &str, b: &str) -> (r: String)
    ensures
        r@ == path_join(a@, b@),
{
    let nb: usize = b.unicode_len();
    if nb > 0 && b.get_char(0) == '/' {
        return String::from_str(b);
    }
    let mut s: String = String::from_str(a);
    let na: usize = a.unicode_len();
    if na > 0 && a.get_char(na - 1) != '/' {
        crate::strings::push_char(&mut s, '/');
    }
    s.append(b);
    s
}

/// Whether `list` already holds a destination at `path` (same text).
pub fn already_found(list: &[CloudDestination], path: &str) -> (b: bool)
    ensures
        b == in_found(list@, path@),
{
    let mut i: usize = 0;
    while i < list.len()
        invariant
            i <= list@.len(),
            forall|j: int| 0 <= j < i ==> (#[trigger] list@[j]).local_path@ != path@,
        decreases list.len() - i,
    {
        if str_eq(list[i].local_path.as_str(), path) {
            return true;
        }
        i += 1;
    }
    false
}

/// The folders where Google Drive Desktop may sync, in the order they are
/// tried: for each of `Google Drive` and `google-drive` under `home`, the
/// folder itself and its `My Drive`.
pub open spec fn google_drive_candidates_spec(home: Seq<char>) -> Seq<Seq<char>> {
    seq![
        path_join(home, "Google Drive"@),
        path_join(path_join(home, "Google Drive"@), "My Drive"@),
        path_join(home, "google-drive"@),
        path_join(path_join(home, "google-drive"@), "My Drive"@),
    ]
}

/// Candidate Google Drive folders under a home directory.
pub fn google_drive_candidates(home: &str) -> (r: Vec<String>)
    ensures
        r@.map_values(|s: String| s@) == google_drive_candidates_spec(home@),
{
    let mut r: Vec<String> = Vec::new();
    let gd: String = join_str(home, "Google Drive");
    let gd_my: String = join_str(gd.as_str(), "My Drive");
    let gl: String = join_str(home, "google-drive");
    let gl_my: String = join_str(gl.as_str(), "My Drive");
    r.push(gd);
    r.push(gd_my);
    r.push(gl);
    r.push(gl_my);
    assert(r@.map_values(|s: String| s@) =~= google_drive_candidates_spec(home@));
    r
}

/// The environment variables that name OneDrive folders, in the order they
/// are tried, each with the account it names.
pub open spec fn onedrive_env_spec() -> Seq<(Seq<char>, CloudProvider)> {
    seq![
        ("OneDrive"@, CloudProvider::OneDrivePersonal),
        ("OneDriveConsumer"@, CloudProvider::OneDrivePersonal),
        ("OneDriveCommercial"@, CloudProvider::OneDriveBusiness),
    ]
}

/// The environment variables to read for OneDrive folders.
pub fn onedrive_env_vars() -> (r: Vec<(String, CloudProvider)>)
    ensures
        r@.map_values(|e: (String, CloudProvider)| (e.0@, e.1)) == onedrive_env_spec(),
{
    let mut r: Vec<(String, CloudProvider)> = Vec::new();
    r.push((String::from_str("OneDrive"), CloudProvider::OneDrivePersonal));
    r.push((String::from_str("OneDriveConsumer"), CloudProvider::OneDrivePersonal));
    r.push((String::from_str("OneDriveCommercial"), CloudProvider::OneDriveBusiness));
    assert(r@.map_values(|e: (String, CloudProvider)| (e.0@, e.1)) =~= onedrive_env_spec());
    r
}

/// The personal OneDrive folders tried under `home` after the environment.
pub open spec fn onedrive_home_spec(home: Seq<char>) -> Seq<Seq<char>> {
    seq![path_join(home, "OneDrive"@), path_join(home, "OneDrive - Personal"@)]
}

/// Candidate personal OneDrive folders under a home directory.
pub fn onedrive_home_candidates(home: &str) -> (r: Vec<String>)
    ensures
        r@.map_values(|s: String| s@) == onedrive_home_spec(home@),
{
    let mut r: Vec<String> = Vec::new();
    r.push(join_str(home, "OneDrive"));
    r.push(join_str(home, "OneDrive - Personal"));
    assert(r@.map_values(|s: String| s@) =~= onedrive_home_spec(home@));
    r
}

/// The paths of `found`.
pub open spec fn found_paths(found: Seq<CloudDestination>) -> Seq<Seq<char>> {
    found.map_values(|d: CloudDestination| d.local_path@)
}

/// The candidates kept, in order: one that exists (`dirs`) and whose path
/// is neither in `taken` nor kept before.
pub open spec fn pick_spec(
    cands: Seq<(Seq<char>, CloudProvider)>,
    dirs: Seq<bool>,
    taken: Seq<Seq<char>>,
) -> Seq<(Seq<char>, CloudProvider)>
    decreases cands.len(),
{
    if cands.len() == 0 {
        Seq::empty()
    } else {
        let c = cands[0];
        let rest = cands.subrange(1, cands.len() as int);
        let drest = dirs.subrange(1, dirs.len() as int);
        if dirs[0] && !taken.contains(c.0) {
            seq![c] + pick_spec(rest, drest, taken.push(c.0))
        } else {
            pick_spec(rest, drest, taken)
        }
    }
}

fn text_in(v: &Vec<(String, CloudProvider)>, p: &str) -> (b: bool)
    ensures
        b == v@.map_values(|e: (String, CloudProvider)| e.0@).contains(p@),
{
    let ghost m = v@.map_values(|e: (String, CloudProvider)| e.0@);
    let mut i: usize = 0;
    while i < v.len()
        invariant
            i <= v@.len(),
            m == v@.map_values(|e: (String, CloudProvider)| e.0@),
            forall|j: int| 0 <= j < i ==> m[j] != p@,
        decreases v.len() - i,
    {
        if str_eq(v[i].0.as_str(), p) {
            assert(m[i as int] == p@);
            return true;
        }
        i += 1;
    }
    false
}

/// The candidate folders (with their providers) to become destinations, in
/// order: those that exist (`is_dir[i]` for candidate `i`), are not already
/// in `found`, and whose path no earlier kept candidate has.
pub fn pick_new_folders(
    cands: &Vec<(String, CloudProvider)>,
    is_dir: &Vec<bool>,
    found: &[CloudDestination],
) -> (r: Vec<(String, CloudProvider)>)
    requires
        is_dir@.len() == cands@.len(),
    ensures
        r@.map_values(|e: (String, CloudProvider)| (e.0@, e.1)) == pick_spec(
            cands@.map_values(|e: (String, CloudProvider)| (e.0@, e.1)),
            is_dir@,
            found_paths(found@),
        ),
{
    let ghost cs = cands@.map_values(|e: (String, CloudProvider)| (e.0@, e.1));
    let ghost fp = found_paths(found@);
    let mut r: Vec<(String, CloudProvider)> = Vec::new();
    let mut i: usize = 0;
    proof {
        assert(cs.subrange(0, cs.len() as int) =~= cs);
        assert(is_dir@.subrange(0, is_dir@.len() as int) =~= is_dir@);
        assert(fp + r@.map_values(|e: (String, CloudProvider)| e.0@) =~= fp);
        assert(r@.map_values(|e: (String, CloudProvider)| (e.0@, e.1)) + pick_spec(cs, is_dir@, fp) =~= pick_spec(
            cs,
            is_dir@,
            fp,
        ));
    }
    while i < cands.len()
        invariant
            i <= cands@.len(),
            is_dir@.len() == cands@.len(),
            cs == cands@.map_values(|e: (String, CloudProvider)| (e.0@, e.1)),
            fp == found_paths(found@),
            pick_spec(cs, is_dir@, fp) == r@.map_values(|e: (String, CloudProvider)| (e.0@, e.1)) + pick_spec(
                cs.subrange(i as int, cs.len() as int),
                is_dir@.subrange(i as int, is_dir@.len() as int),
                fp + r@.map_values(|e: (String, CloudProvider)| e.0@),
            ),
        decreases cands.len() - i,
    {
        let ghost r0 = r@;
        let ghost sub = cs.subrange(i as int, cs.len() as int);
        let ghost dsub = is_dir@.subrange(i as int, is_dir@.len() as int);
        let ghost taken = fp + r0.map_values(|e: (String, CloudProvider)| e.0@);
        assert(sub.subrange(1, sub.len() as int) =~= cs.subrange(i + 1, cs.len() as int));
        assert(dsub.subrange(1, dsub.len() as int) =~= is_dir@.subrange(i + 1, is_dir@.len() as int));
        assert(sub[0] == (cands@[i as int].0@, cands@[i as int].1));
        let in_found: bool = already_found(found, cands[i].0.as_str());
        let in_r: bool = text_in(&r, cands[i].0.as_str());
        proof {
            assert(in_found == fp.contains(cands@[i as int].0@)) by {
                if in_found {
                    let j = choose|j: int| 0 <= j < found@.len() && (#[trigger] found@[j]).local_path@ == cands@[i as int].0@;
                    assert(fp[j] == cands@[i as int].0@);
                }
                if fp.contains(cands@[i as int].0@) {
                    let j = choose|j: int| 0 <= j < fp.len() && fp[j] == cands@[i as int].0@;
                    assert(found@[j].local_path@ == cands@[i as int].0@);
                }
            }
            assert(taken.contains(cands@[i as int].0@) == (in_found || in_r)) by {
                let m = r0.map_values(|e: (String, CloudProvider)| e.0@);
                if taken.contains(cands@[i as int].0@) {
                    let j = choose|j: int| 0 <= j < taken.len() && taken[j] == cands@[i as int].0@;
                    if j >= fp.len() {
                        assert(m[j - fp.len()] == cands@[i as int].0@);
                    } else {
                        assert(fp[j] == cands@[i as int].0@);
                    }
                }
                if in_found {
                    let j = choose|j: int| 0 <= j < fp.len() && fp[j] == cands@[i as int].0@;
                    assert(taken[j] == cands@[i as int].0@);
                }
                if in_r {
                    let j = choose|j: int| 0 <= j < m.len() && m[j] == cands@[i as int].0@;
                    assert(taken[fp.len() + j] == cands@[i as int].0@);
                }
            }
        }
        if is_dir[i] && !in_found && !in_r {
            let c: (String, CloudProvider) = (cands[i].0.clone(), cands[i].1);
            r.push(c);
            proof {
                assert(r@.map_values(|e: (String, CloudProvider)| (e.0@, e.1)) =~= r0.map_values(
                    |e: (String, CloudProvider)| (e.0@, e.1),
                ).push(sub[0]));
                assert(fp + r@.map_values(|e: (String, CloudProvider)| e.0@) =~= taken.push(sub[0].0));
                assert(r0.map_values(|e: (String, CloudProvider)| (e.0@, e.1)) + (seq![sub[0]] + pick_spec(
                    cs.subrange(i + 1, cs.len() as int),
                    is_dir@.subrange(i + 1, is_dir@.len() as int),
                    taken.push(sub[0].0),
                )) =~= r@.map_values(|e: (String, CloudProvider)| (e.0@, e.1)) + pick_spec(
                    cs.subrange(i + 1, cs.len() as int),
                    is_dir@.subrange(i + 1, is_dir@.len() as int),
                    taken.push(sub[0].0),
                ));
            }
        }
        i += 1;
    }
    proof {
        assert(cs.subrange(i as int, cs.len() as int) =~= Seq::<(Seq<char>, CloudProvider)>::empty());
        assert(r@.map_values(|e: (String, CloudProvider)| (e.0@, e.1)) + Seq::<(Seq<char>, CloudProvider)>::empty()
            =~= r@.map_values(|e: (String, CloudProvider)| (e.0@, e.1)));
    }
    r
}

/// The text member `inner` of the object member `outer` of the JSON
/// document `contents`, where the document parses as JSON and both members
/// are there (the second one a string). A function of its arguments alone.
pub uninterp spec fn json_str_member(contents: Seq<char>, outer: Seq<char>, inner: Seq<char>) -> Option<Seq<char>>;

/// Calls `serde_json::from_str::<serde_json::Value>` on `contents`, then
/// `Value::get` with `outer` and with `inner`, then `Value::as_str`. Its
/// contract claims only that the result is [`json_str_member`] of the
/// arguments.
#[verifier::external_body]
fn json_str_at(contents: &str, outer: &str, inner: &str) -> (r: Option<String>)
    ensures
        r matches Some(s) ==> json_str_member(contents@, outer@, inner@) == Some(s@),
        r is None ==> json_str_member(contents@, outer@, inner@) is None,
{
    let v: serde_json::Value = serde_json::from_str(contents).ok()?;
    v.get(outer).and_then(|o| o.get(inner)).and_then(|p| p.as_str()).map(|p| p.to_string())
}

/// The folder named by the `path` of member `key` in Dropbox's `info.json`,
/// with the label `Dropbox (key)`, where there is one.
pub open spec fn dropbox_entry(contents: Seq<char>, key: Seq<char>) -> Seq<(Seq<char>, Seq<char>)> {
    match json_str_member(contents, key, "path"@) {
        Some(p) => seq![(p, "Dropbox ("@ + key + ")"@)],
        None => Seq::empty(),
    }
}

/// The Dropbox folders an `info.json` names: the personal one, then the
/// business one, each with its label.
pub open spec fn dropbox_candidates_spec(contents: Seq<char>) -> Seq<(Seq<char>, Seq<char>)> {
    dropbox_entry(contents, "personal"@) + dropbox_entry(contents, "business"@)
}

fn dropbox_entry_of(contents: &str, key: &str, out: &mut Vec<(String, String)>)
    ensures
        final(out)@.map_values(|e: (String, String)| (e.0@, e.1@)) == old(out)@.map_values(
            |e: (String, String)| (e.0@, e.1@),
        ) + dropbox_entry(contents@, key@),
{
    let path: String = String::from_str("path");
    match json_str_at(contents, key, path.as_str()) {
        Some(p) => {
            let mut label: String = String::from_str("Dropbox (");
            label.append(key);
            crate::strings::push_char(&mut label, ')');
            proof {
                reveal_strlit(")");
                assert(label@ =~= "Dropbox ("@ + key@ + ")"@);
            }
            let ghost o = out@;
            out.push((p, label));
            assert(out@.map_values(|e: (String, String)| (e.0@, e.1@)) =~= o.map_values(
                |e: (String, String)| (e.0@, e.1@),
            ) + dropbox_entry(contents@, key@));
        },
        None => {
            assert(out@.map_values(|e: (String, String)| (e.0@, e.1@)) =~= out@.map_values(
                |e: (String, String)| (e.0@, e.1@),
            ) + dropbox_entry(contents@, key@));
        },
    }
}

/// The Dropbox folders (and their labels) named in the text of an
/// `info.json`: the `path` of `personal`, then that of `business`, each
/// labelled `Dropbox (key)`; none where the text is not JSON.
pub fn dropbox_candidates(contents: &str) -> (r: Vec<(String, String)>)
    ensures
        r@.map_values(|e: (String, String)| (e.0@, e.1@)) == dropbox_candidates_spec(contents@),
{
    let mut r: Vec<(String, String)> = Vec::new();
    let personal: String = String::from_str("personal");
    let business: String = String::from_str("business");
    assert(r@.map_values(|e: (String, String)| (e.0@, e.1@)) =~= Seq::<(Seq<char>, Seq<char>)>::empty());
    dropbox_entry_of(contents, personal.as_str(), &mut r);
    dropbox_entry_of(contents, business.as_str(), &mut r);
    assert(Seq::<(Seq<char>, Seq<char>)>::empty() + dropbox_entry(contents@, "personal"@) =~= dropbox_entry(
        contents@,
        "personal"@,
    ));
    r
}

/// The Dropbox folder tried under a home directory.
pub fn dropbox_home_candidate(home: &str) -> (r: String)
    ensures
        r@ == path_join(home@, "Dropbox"@),
{
    join_str(home, "Dropbox")
}

/// `s` is the text of an existing candidate.
pub open spec fn existing_candidate(candidates: Seq<String>, is_dir: Seq<bool>, s: Seq<char>) -> bool {
    exists|i: int| 0 <= i < candidates.len() && is_dir[i] && (#[trigger] candidates[i])@ == s
}

/// A destination at `s` is in `found`.
pub open spec fn in_found(found: Seq<CloudDestination>, s: Seq<char>) -> bool {
    exists|j: int| 0 <= j < found.len() && (#[trigger] found[j]).local_path@ == s
}

/// `s` is the text of one of `v`.
pub open spec fn holds_text(v: Seq<String>, s: Seq<char>) -> bool {
    exists|k: int| 0 <= k < v.len() && (#[trigger] v[k])@ == s
}

/// The candidates that exist (`is_dir[i]` for candidate `i`) and are not
/// already in the list, each once, in order: each becomes a destination.
pub fn new_folders(candidates: &[String], is_dir: &[bool], found: &[CloudDestination]) -> (r: Vec<String>)
    requires
        is_dir@.len() == candidates@.len(),
    ensures
        forall|k: int| 0 <= k < r@.len() ==> existing_candidate(candidates@, is_dir@, (#[trigger] r@[k])@),
        forall|k: int| 0 <= k < r@.len() ==> !in_found(found@, (#[trigger] r@[k])@),
        forall|a: int, b: int| 0 <= a < b < r@.len() ==> (#[trigger] r@[a])@ != (#[trigger] r@[b])@,
        forall|i: int|
            0 <= i < candidates@.len() && is_dir@[i] && !in_found(found@, (#[trigger] candidates@[i])@) ==> holds_text(
                r@,
                candidates@[i]@,
            ),
{
    let mut r: Vec<String> = Vec::new();
    let mut i: usize = 0;
    while i < candidates.len()
        invariant
            i <= candidates@.len(),
            is_dir@.len() == candidates@.len(),
            forall|k: int| 0 <= k < r@.len() ==> existing_candidate(candidates@, is_dir@, (#[trigger] r@[k])@),
            forall|k: int| 0 <= k < r@.len() ==> !in_found(found@, (#[trigger] r@[k])@),
            forall|a: int, b: int| 0 <= a < b < r@.len() ==> (#[trigger] r@[a])@ != (#[trigger] r@[b])@,
            forall|m: int|
                0 <= m < i && is_dir@[m] && !in_found(found@, (#[trigger] candidates@[m])@) ==> holds_text(
                    r@,
                    candidates@[m]@,
                ),
        decreases candidates.len() - i,
    {
        if is_dir[i] && !already_found(found, candidates[i].as_str()) && !contains_text(&r, candidates[i].as_str()) {
            let ghost before: Seq<String> = r@;
            let c: String = candidates[i].clone();
            r.push(c);
            assert(r@[r@.len() - 1]@ == candidates@[i as int]@);
            assert forall|k: int| 0 <= k < r@.len() implies existing_candidate(candidates@, is_dir@, (#[trigger] r@[k])@) by {
                if k < before.len() {
                    assert(r@[k] == before[k]);
                }
            }
            assert forall|k: int| 0 <= k < r@.len() implies !in_found(found@, (#[trigger] r@[k])@) by {
                if k < before.len() {
                    assert(r@[k] == before[k]);
                }
            }
            assert forall|a: int, b: int| 0 <= a < b < r@.len() implies (#[trigger] r@[a])@ != (#[trigger] r@[b])@ by {
                assert(r@[a] == before[a]);
                if b < before.len() {
                    assert(r@[b] == before[b]);
                }
            }
            assert forall|m: int|
                0 <= m < i + 1 && is_dir@[m] && !in_found(found@, (#[trigger] candidates@[m])@) implies holds_text(
                r@,
                candidates@[m]@,
            ) by {
                if m < i {
                    let k0 = choose|k: int| 0 <= k < before.len() && (#[trigger] before[k])@ == candidates@[m]@;
                    assert(r@[k0] == before[k0]);
                } else {
                    assert(r@[r@.len() - 1]@ == candidates@[m]@);
                }
            }
        }
        i += 1;
    }
    r
}

/// Whether `v` holds a string with the characters of `s`.
fn contains_text(v: &Vec<String>, s: &str) -> (b: bool)
    ensures
        b == holds_text(v@, s@),
{
    let mut i: usize = 0;
    while i < v.len()
        invariant
            i <= v@.len(),
            forall|k: int| 0 <= k < i ==> (#[trigger] v@[k])@ != s@,
        decreases v.len() - i,
    {
        if str_eq(v[i].as_str(), s) {
            return true;
        }
        i += 1;
    }
    false
}

} // verus!
