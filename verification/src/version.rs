use vstd::prelude::*;
use vstd::string::StringExecFns;

verus! {

/// One row of the top-level version manifest: which versions exist and
/// where each version's descriptor document can be fetched.
pub struct MinecraftVersion {
    pub id: String,
    pub kind: String,
    pub url: String,
    pub time: Option<String>,
    pub release_time: Option<String>,
    pub compliance_level: Option<i32>,
    pub sha1: Option<String>,
}

/// The top-level manifest: the latest release and snapshot ids, and the
/// ordered list of known versions.
pub struct VersionManifest {
    pub latest: Option<VersionLatest>,
    pub versions: Vec<MinecraftVersion>,
}

pub struct VersionLatest {
    pub release: Option<String>,
    pub snapshot: Option<String>,
}

/// A version's descriptor: the binary, libraries and metadata needed to
/// run it.
pub struct VersionDetails {
    pub id: String,
    pub kind: String,
    pub time: Option<String>,
    pub release_time: Option<String>,
    pub main_class: Option<String>,
    pub minecraft_arguments: Option<String>,
    pub arguments: Option<Arguments>,
    pub libraries: Option<Vec<Library>>,
    pub downloads: Option<Downloads>,
    pub assets: Option<String>,
    pub asset_index: Option<AssetIndexInfo>,
    pub java_version: Option<JavaVersion>,
}

pub struct AssetIndexInfo {
    pub id: String,
    pub sha1: String,
    pub size: u64,
    pub total_size: Option<u64>,
    pub url: String,
}

pub struct Arguments {
    pub game: Vec<Argument>,
    pub jvm: Vec<Argument>,
}

/// A launch argument: either a plain string or one guarded by rules.
pub enum Argument {
    Plain(String),
    Conditional { rules: Vec<Rule>, value: ArgumentValue },
}

pub enum ArgumentValue {
    Single(String),
    Many(Vec<String>),
}

pub struct Rule {
    pub action: String,
    pub os: Option<OsRule>,
}

pub struct OsRule {
    pub name: Option<String>,
    pub version: Option<String>,
    pub arch: Option<String>,
}

/// One required library: its primary artifact and any platform-specific
/// classifier artifacts.
pub struct Library {
    pub name: String,
    pub downloads: Option<LibraryDownloads>,
    pub rules: Option<Vec<Rule>>,
    pub natives: Option<Vec<(String, String)>>,
}

pub struct LibraryDownloads {
    pub artifact: Option<Artifact>,
    pub classifiers: Option<Vec<(String, Artifact)>>,
}

/// One fetchable library file: where it goes relative to the libraries
/// root, its digest, size and source URL.
pub struct Artifact {
    pub path: String,
    pub sha1: String,
    pub size: u64,
    pub url: String,
}

pub struct Downloads {
    pub client: Option<DownloadInfo>,
    pub server: Option<DownloadInfo>,
    pub client_mappings: Option<DownloadInfo>,
    pub server_mappings: Option<DownloadInfo>,
    pub windows_server: Option<DownloadInfo>,
}

pub struct DownloadInfo {
    pub sha1: String,
    pub size: u64,
    pub url: String,
}

pub struct JavaVersion {
    pub component: String,
    pub major_version: i32,
}

/// Recently used version ids, most recent first, and when each id was
/// last used (seconds since the epoch).
pub struct VersionHistory {
    pub recent_versions: Vec<String>,
    pub last_used: Vec<(String, i64)>,
}

/// Which slice of the manifest the caller is looking at.
pub enum VersionView {
    Recent,
    All,
    Modded,
}

/// How many recently used version ids the history keeps.
pub const RECENT_VERSIONS_LIMIT: usize = 5;

/// The age (in seconds) at which a persisted manifest snapshot no longer
/// counts as fresh: four hours.
pub const MANIFEST_STALE_AFTER_SECS: i64 = 14400;

/// Whether a manifest snapshot fetched at `fetched_at` is stale at `now`
/// (both in seconds since the epoch): it is stale once four hours or more
/// have passed. A snapshot from the future is not stale.
pub open spec fn spec_manifest_is_stale(now: i64, fetched_at: i64) -> bool {
    now - fetched_at >= MANIFEST_STALE_AFTER_SECS
}

pub fn manifest_is_stale(now: i64, fetched_at: i64) -> (r: bool)
    ensures
        r == spec_manifest_is_stale(now, fetched_at),
{
    (now as i128) - (fetched_at as i128) >= MANIFEST_STALE_AFTER_SECS as i128
}

/// Whether the manifest must be fetched from the network rather than
/// reused from disk: yes when no snapshot or freshness marker is on disk,
/// when the marker cannot be read as a timestamp, or when the snapshot is
/// stale.
pub fn should_refresh_manifest(snapshot_on_disk: bool, fetched_at: Option<i64>, now: i64) -> (r:
    bool)
    ensures
        r == (!snapshot_on_disk || fetched_at is None || spec_manifest_is_stale(
            now,
            fetched_at->0,
        )),
{
    if !snapshot_on_disk {
        return true;
    }
    match fetched_at {
        None => true,
        Some(t) => manifest_is_stale(now, t),
    }
}

/// A batch of transfers succeeded only when every task in it succeeded;
/// one failed or cancelled task fails the whole batch, while the other
/// tasks' results stand on their own.
pub fn batch_all_ok(results: &Vec<bool>) -> (r: bool)
    ensures
        r == (forall|i: int| 0 <= i < results@.len() ==> results@[i]),
{
    let n = results.len();
    let mut i: usize = 0;
    while i < n
        invariant
            n == results@.len(),
            i <= n,
            forall|k: int| 0 <= k < i ==> results@[k],
        decreases n - i,
    {
        if !results[i] {
            return false;
        }
        i += 1;
    }
    true
}

/// Whether an archive just downloaded as a client binary looks like one:
/// the file exists, is not empty, parses as an archive, and either some
/// entry name marks a main class or the archive is large enough to be a
/// bundle.
pub fn jar_looks_valid(
    file_exists: bool,
    file_size: u64,
    parsed: bool,
    entry_names: &Vec<String>,
) -> (r: bool)
    ensures
        r == (file_exists && file_size > 0 && parsed && ((exists|i: int|
            0 <= i < entry_names@.len() && (crate::strutil::spec_contains(
                (#[trigger] entry_names@[i])@,
                "Main.class"@,
            ) || crate::strutil::spec_contains(entry_names@[i]@, "MinecraftServer.class"@)))
            || entry_names@.len() > 100)),
{
    if !file_exists || file_size == 0 || !parsed {
        return false;
    }
    let n = entry_names.len();
    let mut i: usize = 0;
    while i < n
        invariant
            file_exists,
            file_size > 0,
            parsed,
            n == entry_names@.len(),
            i <= n,
            forall|k: int|
                0 <= k < i ==> !crate::strutil::spec_contains(
                    (#[trigger] entry_names@[k])@,
                    "Main.class"@,
                ) && !crate::strutil::spec_contains(entry_names@[k]@, "MinecraftServer.class"@),
        decreases n - i,
    {
        let name = entry_names[i].as_str();
        let marks_main = crate::strutil::contains_sub(name, "Main.class")
            || crate::strutil::contains_sub(name, "MinecraftServer.class");
        if marks_main {
            proof {
                assert(0 <= i < entry_names@.len() && (crate::strutil::spec_contains(
                    entry_names@[i as int]@,
                    "Main.class"@,
                ) || crate::strutil::spec_contains(
                    entry_names@[i as int]@,
                    "MinecraftServer.class"@,
                )));
            }
            return true;
        }
        i += 1;
    }
    n > 100
}

/// Some string in `s` reads `x`.
pub open spec fn seq_has_string(s: Seq<String>, x: Seq<char>) -> bool {
    exists|i: int| 0 <= i < s.len() && (#[trigger] s[i])@ == x
}

/// The artifact `a` is one of the files library `l` requires: its primary
/// artifact or one of its platform-specific classifier artifacts.
pub open spec fn artifact_in_library(l: Library, a: Artifact) -> bool {
    match l.downloads {
        Some(d) => {
            ||| match d.artifact {
                Some(p) => p == a,
                None => false,
            }
            ||| match d.classifiers {
                Some(cs) => exists|k: int| 0 <= k < cs.len() && (#[trigger] cs[k]).1 == a,
                None => false,
            }
        },
        None => false,
    }
}

/// The artifact `a` is required by some library in `libs`.
pub open spec fn artifact_in_libraries(libs: Seq<Library>, a: Artifact) -> bool {
    exists|i: int| 0 <= i < libs.len() && artifact_in_library(#[trigger] libs[i], a)
}

/// Where artifact `a` lives under the libraries root.
pub open spec fn dest_of(root: Seq<char>, a: Artifact) -> Seq<char> {
    root + seq!['/'] + a.path@
}

/// Some queued task targets the destination path `p`.
pub open spec fn has_task_path(ts: Seq<(String, String, Option<String>)>, p: Seq<char>) -> bool {
    exists|t: int| 0 <= t < ts.len() && (#[trigger] ts[t]).1@ == p
}

/// The task downloads one required artifact that is absent from disk:
/// its URL, destination under the libraries root, and expected digest
/// all come from that artifact.
pub open spec fn task_stems_from(
    task: (String, String, Option<String>),
    libs: Seq<Library>,
    root: Seq<char>,
    present: Seq<String>,
) -> bool {
    exists|a: Artifact|
        {
            &&& #[trigger] artifact_in_libraries(libs, a)
            &&& task.0@ == a.url@
            &&& task.1@ == dest_of(root, a)
            &&& task.2 is Some
            &&& (task.2->0)@ == a.sha1@
            &&& !seq_has_string(present, task.1@)
        }
}

/// Whether some string of `v` reads `x`.
pub fn vec_has_string(v: &Vec<String>, x: &str) -> (r: bool)
    ensures
        r == seq_has_string(v@, x@),
{
    let n = v.len();
    let mut i: usize = 0;
    while i < n
        invariant
            n == v@.len(),
            i <= n,
            forall|k: int| 0 <= k < i ==> (#[trigger] v@[k])@ != x@,
        decreases n - i,
    {
        if crate::strutil::str_eq(x, v[i].as_str()) {
            proof {
                assert(0 <= i < v@.len() && v@[i as int]@ == x@);
            }
            return true;
        }
        i += 1;
    }
    false
}

fn tasks_have_path(ts: &Vec<(String, String, Option<String>)>, p: &str) -> (r: bool)
    ensures
        r == has_task_path(ts@, p@),
{
    let n = ts.len();
    let mut i: usize = 0;
    while i < n
        invariant
            n == ts@.len(),
            i <= n,
            forall|k: int| 0 <= k < i ==> (#[trigger] ts@[k]).1@ != p@,
        decreases n - i,
    {
        if crate::strutil::str_eq(p, ts[i].1.as_str()) {
            proof {
                assert(0 <= i < ts@.len() && ts@[i as int].1@ == p@);
            }
            return true;
        }
        i += 1;
    }
    false
}

/// Queues artifact `a` unless its destination already exists on disk or a
/// task for the same destination is already queued: duplicate targets are
/// fetched only once.
fn queue_artifact(
    tasks: &mut Vec<(String, String, Option<String>)>,
    libraries_root: &str,
    a: &Artifact,
    present: &Vec<String>,
)
    ensures
        // previously queued tasks stay, in place
        final(tasks)@.len() >= old(tasks)@.len(),
        forall|t: int| 0 <= t < old(tasks)@.len() ==> final(tasks)@[t] == old(tasks)@[t],
        // at most the one task for `a` is added
        final(tasks)@.len() <= old(tasks)@.len() + 1,
        final(tasks)@.len() == old(tasks)@.len() + 1 ==> {
            &&& final(tasks)@.last().0@ == a.url@
            &&& final(tasks)@.last().1@ == dest_of(libraries_root@, *a)
            &&& final(tasks)@.last().2 is Some
            &&& (final(tasks)@.last().2->0)@ == a.sha1@
            &&& !seq_has_string(present@, dest_of(libraries_root@, *a))
            &&& !has_task_path(old(tasks)@, dest_of(libraries_root@, *a))
        },
        // afterwards the artifact is handled one way or the other
        seq_has_string(present@, dest_of(libraries_root@, *a)) || has_task_path(
            final(tasks)@,
            dest_of(libraries_root@, *a),
        ),
{
    let dest = path_join(libraries_root, a.path.as_str());
    if !vec_has_string(present, dest.as_str()) && !tasks_have_path(tasks, dest.as_str()) {
        tasks.push((clone_str(&a.url), dest, Some(clone_str(&a.sha1))));
        proof {
            let ts = tasks@;
            assert(ts[ts.len() - 1].1@ == dest_of(libraries_root@, *a));
            assert(has_task_path(ts, dest_of(libraries_root@, *a)));
        }
    }
}

fn clone_artifact(a: &Artifact) -> (r: Artifact)
    ensures
        r == *a,
{
    Artifact { path: a.path.clone(), sha1: a.sha1.clone(), size: a.size, url: a.url.clone() }
}

/// The concrete artifacts one library requires: its primary artifact, if
/// any, followed by its classifier artifacts.
fn library_artifacts(l: &Library) -> (r: Vec<Artifact>)
    ensures
        forall|k: int| 0 <= k < r@.len() ==> artifact_in_library(*l, #[trigger] r@[k]),
        forall|a: Artifact| #[trigger] artifact_in_library(*l, a) ==> r@.contains(a),
{
    let mut out: Vec<Artifact> = Vec::new();
    match &l.downloads {
        Some(d) => {
            match &d.artifact {
                Some(a) => {
                    out.push(clone_artifact(a));
                    proof {
                        assert(out@[0] == *a);
                        assert(out@.contains(*a));
                    }
                },
                None => {},
            }
            let ghost primary_in: bool = d.artifact is Some;
            match &d.classifiers {
                Some(cs) => {
                    let m = cs.len();
                    let mut j: usize = 0;
                    while j < m
                        invariant
                            m == cs@.len(),
                            j <= m,
                            l.downloads is Some,
                            cs@ == match l.downloads {
                                Some(dd) => match dd.classifiers {
                                    Some(c2) => c2@,
                                    None => Seq::empty(),
                                },
                                None => Seq::empty(),
                            },
                            primary_in == (match l.downloads {
                                Some(dd) => dd.artifact is Some,
                                None => false,
                            }),
                            primary_in ==> out@.contains(
                                match l.downloads {
                                    Some(dd) => dd.artifact->0,
                                    None => arbitrary(),
                                },
                            ),
                            forall|k: int|
                                0 <= k < j ==> out@.contains((#[trigger] cs@[k]).1),
                            forall|k: int|
                                0 <= k < out@.len() ==> artifact_in_library(
                                    *l,
                                    #[trigger] out@[k],
                                ),
                        decreases m - j,
                    {
                        let ghost pre = out@;
                        let a = &cs[j].1;
                        out.push(clone_artifact(a));
                        proof {
                            assert(out@[out@.len() - 1] == *a);
                            assert(out@.contains(*a));
                            assert(artifact_in_library(*l, *a));
                            assert forall|k: int| 0 <= k < j implies out@.contains(
                                (#[trigger] cs@[k]).1,
                            ) by {
                                let w = choose|w: int|
                                    0 <= w < pre.len() && pre[w] == cs@[k].1;
                                assert(out@[w] == cs@[k].1);
                            }
                            if primary_in {
                                let ghost p = l.downloads->0.artifact->0;
                                let w = choose|w: int| 0 <= w < pre.len() && pre[w] == p;
                                assert(out@[w] == p);
                            }
                        }
                        j += 1;
                    }
                },
                None => {},
            }
        },
        None => {},
    }
    proof {
        assert forall|a: Artifact| #[trigger] artifact_in_library(*l, a) implies out@.contains(
            a,
        ) by {
            let dd = l.downloads->0;
            if dd.artifact is Some && dd.artifact->0 == a {
            } else {
                let cs = dd.classifiers->0;
                let k = choose|k: int| 0 <= k < cs.len() && (#[trigger] cs[k]).1 == a;
                assert(out@.contains(cs[k].1));
            }
        }
    }
    out
}

/// Expands a version's library list into concrete download tasks
/// `(url, destination, expected digest)`: one per primary artifact and
/// one per classifier artifact, skipping destinations already on disk,
/// with each destination queued at most once.
pub fn expand_library_tasks(
    libraries: &Vec<Library>,
    libraries_root: &str,
    present: &Vec<String>,
) -> (r: Vec<(String, String, Option<String>)>)
    ensures
        // destinations are pairwise distinct
        forall|i: int, j: int|
            #![trigger r@[i], r@[j]]
            0 <= i < r@.len() && 0 <= j < r@.len() && i != j ==> r@[i].1@ != r@[j].1@,
        // every task stems from a required artifact whose file is absent
        forall|t: int|
            0 <= t < r@.len() ==> task_stems_from(
                #[trigger] r@[t],
                libraries@,
                libraries_root@,
                present@,
            ),
        // every required artifact is already present or queued
        forall|a: Artifact|
            #[trigger] artifact_in_libraries(libraries@, a) ==> seq_has_string(
                present@,
                dest_of(libraries_root@, a),
            ) || has_task_path(r@, dest_of(libraries_root@, a)),
{
    let n = libraries.len();
    let mut tasks: Vec<(String, String, Option<String>)> = Vec::new();
    let mut i: usize = 0;
    while i < n
        invariant
            n == libraries@.len(),
            i <= n,
            forall|x: int, y: int|
                #![trigger tasks@[x], tasks@[y]]
                0 <= x < tasks@.len() && 0 <= y < tasks@.len() && x != y ==> tasks@[x].1@
                    != tasks@[y].1@,
            forall|t: int|
                0 <= t < tasks@.len() ==> task_stems_from(
                    #[trigger] tasks@[t],
                    libraries@,
                    libraries_root@,
                    present@,
                ),
            forall|a: Artifact|
                #[trigger] artifact_in_libraries(libraries@.take(i as int), a) ==> seq_has_string(
                    present@,
                    dest_of(libraries_root@, a),
                ) || has_task_path(tasks@, dest_of(libraries_root@, a)),
        decreases n - i,
    {
        let arts = library_artifacts(&libraries[i]);
        let m = arts.len();
        let mut j: usize = 0;
        while j < m
            invariant
                n == libraries@.len(),
                i < n,
                m == arts@.len(),
                j <= m,
                forall|k: int|
                    0 <= k < arts@.len() ==> artifact_in_library(
                        libraries@[i as int],
                        #[trigger] arts@[k],
                    ),
                forall|x: int, y: int|
                    #![trigger tasks@[x], tasks@[y]]
                    0 <= x < tasks@.len() && 0 <= y < tasks@.len() && x != y ==> tasks@[x].1@
                        != tasks@[y].1@,
                forall|t: int|
                    0 <= t < tasks@.len() ==> task_stems_from(
                        #[trigger] tasks@[t],
                        libraries@,
                        libraries_root@,
                        present@,
                    ),
                forall|a: Artifact|
                    #[trigger] artifact_in_libraries(libraries@.take(i as int), a)
                        ==> seq_has_string(present@, dest_of(libraries_root@, a))
                        || has_task_path(tasks@, dest_of(libraries_root@, a)),
                forall|k: int|
                    0 <= k < j ==> seq_has_string(
                        present@,
                        dest_of(libraries_root@, #[trigger] arts@[k]),
                    ) || has_task_path(tasks@, dest_of(libraries_root@, arts@[k])),
            decreases m - j,
        {
            let ghost pre = tasks@;
            queue_artifact(&mut tasks, libraries_root, &arts[j], present);
            proof {
                carry_invariants(
                    pre,
                    tasks@,
                    libraries@,
                    libraries_root@,
                    present@,
                    arts@[j as int],
                    i as int,
                );
                assert forall|k: int| 0 <= k < j + 1 implies seq_has_string(
                    present@,
                    dest_of(libraries_root@, #[trigger] arts@[k]),
                ) || has_task_path(tasks@, dest_of(libraries_root@, arts@[k])) by {
                    if k < j {
                        carry_handled(pre, tasks@, libraries_root@, present@, arts@[k]);
                    }
                }
            }
            j += 1;
        }
        proof {
            let lib = libraries@[i as int];
            assert forall|a: Artifact|
                #[trigger] artifact_in_libraries(libraries@.take(i + 1), a) implies seq_has_string(
                present@,
                dest_of(libraries_root@, a),
            ) || has_task_path(tasks@, dest_of(libraries_root@, a)) by {
                let w = choose|w: int|
                    0 <= w < libraries@.take(i + 1).len() && artifact_in_library(
                        #[trigger] libraries@.take(i + 1)[w],
                        a,
                    );
                if w < i {
                    assert(libraries@.take(i + 1)[w] == libraries@.take(i as int)[w]);
                    assert(artifact_in_libraries(libraries@.take(i as int), a));
                } else {
                    assert(libraries@.take(i + 1)[w] == lib);
                    assert(arts@.contains(a));
                    let k = choose|k: int| 0 <= k < arts@.len() && arts@[k] == a;
                    assert(seq_has_string(present@, dest_of(libraries_root@, arts@[k]))
                        || has_task_path(tasks@, dest_of(libraries_root@, arts@[k])));
                }
            }
        }
        i += 1;
    }
    proof {
        assert(libraries@.take(n as int) =~= libraries@);
    }
    tasks
}

/// Pushing tasks never un-handles an artifact.
proof fn carry_handled(
    pre: Seq<(String, String, Option<String>)>,
    post: Seq<(String, String, Option<String>)>,
    root: Seq<char>,
    present: Seq<String>,
    a: Artifact,
)
    requires
        post.len() >= pre.len(),
        forall|t: int| 0 <= t < pre.len() ==> post[t] == pre[t],
        seq_has_string(present, dest_of(root, a)) || has_task_path(pre, dest_of(root, a)),
    ensures
        seq_has_string(present, dest_of(root, a)) || has_task_path(post, dest_of(root, a)),
{
    if !seq_has_string(present, dest_of(root, a)) {
        let t = choose|t: int| 0 <= t < pre.len() && (#[trigger] pre[t]).1@ == dest_of(root, a);
        assert(post[t] == pre[t]);
        assert(has_task_path(post, dest_of(root, a)));
    }
}

/// Re-establishes the expansion loop\'s invariants across one call of
/// [`queue_artifact`] for an artifact of the library at index `li`.
proof fn carry_invariants(
    pre: Seq<(String, String, Option<String>)>,
    post: Seq<(String, String, Option<String>)>,
    libs: Seq<Library>,
    root: Seq<char>,
    present: Seq<String>,
    a: Artifact,
    li: int,
)
    requires
        0 <= li < libs.len(),
        artifact_in_library(libs[li], a),
        post.len() >= pre.len(),
        post.len() <= pre.len() + 1,
        forall|t: int| 0 <= t < pre.len() ==> post[t] == pre[t],
        post.len() == pre.len() + 1 ==> {
            &&& post.last().0@ == a.url@
            &&& post.last().1@ == dest_of(root, a)
            &&& post.last().2 is Some
            &&& (post.last().2->0)@ == a.sha1@
            &&& !seq_has_string(present, dest_of(root, a))
            &&& !has_task_path(pre, dest_of(root, a))
        },
        forall|x: int, y: int|
            #![trigger pre[x], pre[y]]
            0 <= x < pre.len() && 0 <= y < pre.len() && x != y ==> pre[x].1@ != pre[y].1@,
        forall|t: int|
            0 <= t < pre.len() ==> task_stems_from(#[trigger] pre[t], libs, root, present),
        forall|b: Artifact|
            #[trigger] artifact_in_libraries(libs.take(li), b) ==> seq_has_string(
                present,
                dest_of(root, b),
            ) || has_task_path(pre, dest_of(root, b)),
    ensures
        forall|x: int, y: int|
            #![trigger post[x], post[y]]
            0 <= x < post.len() && 0 <= y < post.len() && x != y ==> post[x].1@ != post[y].1@,
        forall|t: int|
            0 <= t < post.len() ==> task_stems_from(#[trigger] post[t], libs, root, present),
        forall|b: Artifact|
            #[trigger] artifact_in_libraries(libs.take(li), b) ==> seq_has_string(
                present,
                dest_of(root, b),
            ) || has_task_path(post, dest_of(root, b)),
{
    assert(libs.contains(libs[li]));
    assert(artifact_in_libraries(libs, a)) by {
        assert(0 <= li < libs.len() && artifact_in_library(libs[li], a));
    }
    assert forall|x: int, y: int|
        0 <= x < post.len() && 0 <= y < post.len() && x != y implies post[x].1@ != post[y].1@ by {
        if x < pre.len() && y < pre.len() {
            assert(post[x] == pre[x] && post[y] == pre[y]);
        } else if x == pre.len() && post.len() == pre.len() + 1 {
            assert(post[y] == pre[y]);
            assert(!has_task_path(pre, dest_of(root, a)));
            assert(pre[y].1@ != dest_of(root, a));
        } else if y == pre.len() && post.len() == pre.len() + 1 {
            assert(post[x] == pre[x]);
            assert(!has_task_path(pre, dest_of(root, a)));
            assert(pre[x].1@ != dest_of(root, a));
        }
    }
    assert forall|t: int| 0 <= t < post.len() implies task_stems_from(
        #[trigger] post[t],
        libs,
        root,
        present,
    ) by {
        if t < pre.len() {
            assert(post[t] == pre[t]);
            assert(task_stems_from(pre[t], libs, root, present));
        } else {
            assert(post[t] == post.last());
            assert(artifact_in_libraries(libs, a) && post[t].0@ == a.url@ && post[t].1@ == dest_of(
                root,
                a,
            ) && post[t].2 is Some && (post[t].2->0)@ == a.sha1@ && !seq_has_string(
                present,
                post[t].1@,
            ));
        }
    }
    assert forall|b: Artifact|
        #[trigger] artifact_in_libraries(libs.take(li), b) implies seq_has_string(
        present,
        dest_of(root, b),
    ) || has_task_path(post, dest_of(root, b)) by {
        carry_handled(pre, post, root, present, b);
    }
}

/// The live completeness check for one version: the descriptor document
/// and client binary are on disk and every required library artifact sits
/// at its expected path under the libraries root. `present` is the fresh
/// directory listing supplied by the caller; nothing here is cached, so a
/// file deleted since the last call makes the next answer false.
pub fn is_complete(
    descriptor_present: bool,
    binary_present: bool,
    libraries: &Vec<Library>,
    libraries_root: &str,
    present: &Vec<String>,
) -> (r: bool)
    ensures
        r == (descriptor_present && binary_present && (forall|a: Artifact|
            #[trigger] artifact_in_libraries(libraries@, a) ==> seq_has_string(
                present@,
                dest_of(libraries_root@, a),
            ))),
{
    if !descriptor_present || !binary_present {
        return false;
    }
    let n = libraries.len();
    let mut i: usize = 0;
    while i < n
        invariant
            descriptor_present,
            binary_present,
            n == libraries@.len(),
            i <= n,
            forall|a: Artifact|
                #[trigger] artifact_in_libraries(libraries@.take(i as int), a) ==> seq_has_string(
                    present@,
                    dest_of(libraries_root@, a),
                ),
        decreases n - i,
    {
        let arts = library_artifacts(&libraries[i]);
        let m = arts.len();
        let mut j: usize = 0;
        while j < m
            invariant
                n == libraries@.len(),
                i < n,
                m == arts@.len(),
                j <= m,
                forall|k: int|
                    0 <= k < arts@.len() ==> artifact_in_library(
                        libraries@[i as int],
                        #[trigger] arts@[k],
                    ),
                forall|k: int|
                    0 <= k < j ==> seq_has_string(
                        present@,
                        dest_of(libraries_root@, #[trigger] arts@[k]),
                    ),
            decreases m - j,
        {
            let a = &arts[j];
            let dest = path_join(libraries_root, a.path.as_str());
            if !vec_has_string(present, dest.as_str()) {
                proof {
                    assert(artifact_in_library(libraries@[i as int], arts@[j as int]));
                    assert(artifact_in_libraries(libraries@, arts@[j as int])) by {
                        assert(0 <= i < libraries@.len() && artifact_in_library(
                            libraries@[i as int],
                            arts@[j as int],
                        ));
                    }
                }
                return false;
            }
            j += 1;
        }
        proof {
            let lib = libraries@[i as int];
            assert forall|a: Artifact|
                #[trigger] artifact_in_libraries(libraries@.take(i + 1), a) implies seq_has_string(
                present@,
                dest_of(libraries_root@, a),
            ) by {
                let w = choose|w: int|
                    0 <= w < libraries@.take(i + 1).len() && artifact_in_library(
                        #[trigger] libraries@.take(i + 1)[w],
                        a,
                    );
                if w < i {
                    assert(libraries@.take(i + 1)[w] == libraries@.take(i as int)[w]);
                    assert(artifact_in_libraries(libraries@.take(i as int), a));
                } else {
                    assert(libraries@.take(i + 1)[w] == lib);
                    assert(arts@.contains(a));
                    let k = choose|k: int| 0 <= k < arts@.len() && arts@[k] == a;
                    assert(seq_has_string(present@, dest_of(libraries_root@, arts@[k])));
                }
            }
        }
        i += 1;
    }
    proof {
        assert(libraries@.take(n as int) =~= libraries@);
    }
    true
}


/// `s` with its first occurrence of `x` removed, if any.
pub open spec fn remove_first_str(s: Seq<Seq<char>>, x: Seq<char>) -> Seq<Seq<char>>
    decreases s.len(),
{
    if s.len() == 0 {
        s
    } else if s[0] == x {
        s.drop_first()
    } else {
        seq![s[0]] + remove_first_str(s.drop_first(), x)
    }
}

proof fn lemma_remove_first_at(s: Seq<Seq<char>>, x: Seq<char>, k: int)
    requires
        0 <= k < s.len(),
        s[k] == x,
        forall|m: int| 0 <= m < k ==> s[m] != x,
    ensures
        remove_first_str(s, x) == s.remove(k),
    decreases k,
{
    if k == 0 {
        assert(s.remove(0) =~= s.drop_first());
    } else {
        lemma_remove_first_at(s.drop_first(), x, k - 1);
        assert(seq![s[0]] + s.drop_first().remove(k - 1) =~= s.remove(k));
    }
}

proof fn lemma_remove_first_absent(s: Seq<Seq<char>>, x: Seq<char>)
    requires
        forall|m: int| 0 <= m < s.len() ==> s[m] != x,
    ensures
        remove_first_str(s, x) == s,
    decreases s.len(),
{
    if s.len() > 0 {
        lemma_remove_first_absent(s.drop_first(), x);
        assert(seq![s[0]] + s.drop_first() =~= s);
    }
}

/// The last-used table after an update for `id` at `now`: some row gives
/// `id` the time `now`, every other surviving row stood in the old table,
/// and every old row for another id survives.
pub open spec fn last_used_updated(
    oldlu: Seq<(String, i64)>,
    newlu: Seq<(String, i64)>,
    id: Seq<char>,
    now: i64,
) -> bool {
    &&& exists|k: int|
        0 <= k < newlu.len() && (#[trigger] newlu[k]).0@ == id && newlu[k].1 == now
    &&& forall|k: int|
        0 <= k < newlu.len() && (#[trigger] newlu[k]).0@ != id ==> oldlu.contains(newlu[k])
    &&& forall|k: int|
        0 <= k < oldlu.len() && (#[trigger] oldlu[k]).0@ != id ==> newlu.contains(oldlu[k])
}

impl VersionHistory {
    pub open spec fn wf(self) -> bool {
        self.recent_versions@.len() <= RECENT_VERSIONS_LIMIT
    }

    pub fn new() -> (r: VersionHistory)
        ensures
            r.wf(),
            r.recent_versions@.len() == 0,
            r.last_used@.len() == 0,
    {
        VersionHistory { recent_versions: Vec::new(), last_used: Vec::new() }
    }

    /// Records that a version was used at `now`: the id moves to the
    /// front of the recent list (its earlier occurrence, if any, is
    /// dropped), the list is trimmed to its limit, and the last-used time
    /// for the id becomes `now` while every other id keeps its time.
    pub fn mark_version_used(&mut self, version_id: String, now: i64)
        requires
            old(self).wf(),
        ensures
            final(self).wf(),
            final(self).recent_versions.deep_view() == {
                let full = seq![version_id@] + remove_first_str(
                    old(self).recent_versions.deep_view(),
                    version_id@,
                );
                if full.len() > RECENT_VERSIONS_LIMIT {
                    full.take(RECENT_VERSIONS_LIMIT as int)
                } else {
                    full
                }
            },
            last_used_updated(old(self).last_used@, final(self).last_used@, version_id@, now),
    {
        let ghost gid = version_id@;
        // update the last-used time for this id
        let n = self.last_used.len();
        let mut i: usize = 0;
        let mut updated = false;
        while i < n
            invariant
                gid == version_id@,
                n == self.last_used@.len(),
                i <= n,
                self.recent_versions == old(self).recent_versions,
                old(self).wf(),
                !updated ==> self.last_used@ == old(self).last_used@,
                !updated ==> forall|k: int|
                    0 <= k < i ==> (#[trigger] self.last_used@[k]).0@ != gid,
                updated ==> i == n,
                updated ==> self.last_used@.len() == old(self).last_used@.len()
                    && last_used_updated(old(self).last_used@, self.last_used@, gid, now),
            decreases n - i,
        {
            if crate::strutil::str_eq(version_id.as_str(), self.last_used[i].0.as_str()) {
                let ghost pre = self.last_used@;
                self.last_used[i].1 = now;
                updated = true;
                proof {
                    assert(self.last_used@[i as int].0@ == gid);
                    assert(self.last_used@[i as int].1 == now);
                    assert forall|k: int|
                        0 <= k < self.last_used@.len() && (#[trigger] self.last_used@[k]).0@
                            != gid implies old(self).last_used@.contains(self.last_used@[k]) by {
                        assert(self.last_used@[k] == pre[k]);
                        assert(pre.contains(pre[k]));
                    }
                    assert forall|k: int|
                        0 <= k < old(self).last_used@.len() && (#[trigger] old(
                        self).last_used@[k]).0@ != gid implies self.last_used@.contains(
                        old(self).last_used@[k]) by {
                        assert(k != i);
                        assert(self.last_used@[k] == pre[k]);
                    }
                }
                i = n;
            } else {
                i += 1;
            }
        }
        if !updated {
            let ghost pre = self.last_used@;
            self.last_used.push((clone_str(&version_id), now));
            proof {
                let lu = self.last_used@;
                assert(lu[lu.len() - 1].0@ == gid && lu[lu.len() - 1].1 == now);
                assert forall|k: int|
                    0 <= k < lu.len() && (#[trigger] lu[k]).0@ != gid implies old(
                    self).last_used@.contains(lu[k]) by {
                    assert(k < pre.len());
                    assert(lu[k] == pre[k]);
                    assert(pre.contains(pre[k]));
                }
                assert forall|k: int|
                    0 <= k < old(self).last_used@.len() && (#[trigger] old(
                    self).last_used@[k]).0@ != gid implies lu.contains(old(self).last_used@[k]) by {
                    assert(lu[k] == pre[k]);
                }
            }
        }
        proof {
            assert(last_used_updated(old(self).last_used@, self.last_used@, gid, now));
        }
        let ghost lu_done = self.last_used@;
        // move the id to the front of the recent list
        let ghost recents0 = self.recent_versions.deep_view();
        let rn = self.recent_versions.len();
        let mut p: usize = 0;
        let mut found = false;
        let mut found_at: usize = 0;
        while p < rn
            invariant
                gid == version_id@,
                rn == self.recent_versions@.len(),
                p <= rn,
                self.recent_versions.deep_view() == recents0,
                self.last_used@ == lu_done,
                !found ==> forall|m: int| 0 <= m < p ==> recents0[m] != gid,
                found ==> found_at < rn && recents0[found_at as int] == gid && (forall|m: int|
                    0 <= m < found_at ==> recents0[m] != gid),
                found ==> p == rn,
            decreases rn - p,
        {
            if crate::strutil::str_eq(version_id.as_str(), self.recent_versions[p].as_str()) {
                proof {
                    assert(recents0[p as int] == gid);
                }
                found = true;
                found_at = p;
                p = rn;
            } else {
                p += 1;
            }
        }
        if found {
            self.recent_versions.remove(found_at);
            proof {
                lemma_remove_first_at(recents0, gid, found_at as int);
                assert(self.recent_versions.deep_view() =~= recents0.remove(found_at as int));
            }
        } else {
            proof {
                lemma_remove_first_absent(recents0, gid);
            }
        }
        let ghost cleaned = self.recent_versions.deep_view();
        self.recent_versions.insert(0, version_id);
        proof {
            assert(self.recent_versions.deep_view() =~= seq![gid] + cleaned);
        }
        while self.recent_versions.len() > RECENT_VERSIONS_LIMIT
            invariant
                self.last_used@ == lu_done,
                self.recent_versions@.len() <= (seq![gid] + cleaned).len(),
                (seq![gid] + cleaned).len() > RECENT_VERSIONS_LIMIT
                    ==> self.recent_versions@.len() >= RECENT_VERSIONS_LIMIT,
                (seq![gid] + cleaned).len() <= RECENT_VERSIONS_LIMIT
                    ==> self.recent_versions@.len() == (seq![gid] + cleaned).len(),
                self.recent_versions.deep_view() == (seq![gid] + cleaned).take(
                    self.recent_versions@.len() as int,
                ),
            decreases self.recent_versions@.len(),
        {
            let ghost pre = self.recent_versions.deep_view();
            self.recent_versions.pop();
            proof {
                assert(self.recent_versions.deep_view() =~= pre.drop_last());
                assert(pre.drop_last() =~= (seq![gid] + cleaned).take(
                    self.recent_versions@.len() as int,
                ));
            }
        }
        proof {
            let full = seq![gid] + cleaned;
            assert(cleaned == remove_first_str(recents0, gid));
            if full.len() > RECENT_VERSIONS_LIMIT {
                assert(self.recent_versions@.len() == RECENT_VERSIONS_LIMIT);
                assert(self.recent_versions.deep_view() == full.take(RECENT_VERSIONS_LIMIT as int));
            } else {
                assert(self.recent_versions.deep_view() == full.take(
                    self.recent_versions@.len() as int,
                ));
                assert(full.take(full.len() as int) =~= full);
            }
        }
    }
}

/// The resolver\'s in-memory state: where version files live, the last
/// manifest snapshot, the usage history, the active view and the
/// transfer concurrency setting. All file and network I/O stays with the
/// caller, which feeds results in through these methods.
pub struct VersionManager {
    pub versions_dir: String,
    pub cached_manifest: Option<VersionManifest>,
    pub history: VersionHistory,
    pub current_view: VersionView,
    pub versions: Vec<MinecraftVersion>,
    pub max_concurrent_downloads: usize,
}

fn clone_version(v: &MinecraftVersion) -> (r: MinecraftVersion)
    ensures
        r == *v,
{
    MinecraftVersion {
        id: v.id.clone(),
        kind: v.kind.clone(),
        url: v.url.clone(),
        time: match &v.time {
            Some(x) => Some(x.clone()),
            None => None,
        },
        release_time: match &v.release_time {
            Some(x) => Some(x.clone()),
            None => None,
        },
        compliance_level: match &v.compliance_level {
            Some(x) => Some(*x),
            None => None,
        },
        sha1: match &v.sha1 {
            Some(x) => Some(x.clone()),
            None => None,
        },
    }
}

fn clone_versions(vs: &Vec<MinecraftVersion>) -> (r: Vec<MinecraftVersion>)
    ensures
        r@ == vs@,
{
    let mut out: Vec<MinecraftVersion> = Vec::new();
    let n = vs.len();
    let mut i: usize = 0;
    while i < n
        invariant
            n == vs@.len(),
            i <= n,
            out@ =~= vs@.take(i as int),
        decreases n - i,
    {
        out.push(clone_version(&vs[i]));
        i += 1;
    }
    proof {
        assert(vs@.take(n as int) =~= vs@);
    }
    out
}

impl VersionManager {
    pub fn new(versions_dir: String, max_concurrent_downloads: usize) -> (r: VersionManager)
        ensures
            r.versions_dir == versions_dir,
            r.cached_manifest is None,
            r.history.recent_versions@.len() == 0,
            r.history.last_used@.len() == 0,
            r.current_view is Recent,
            r.versions@.len() == 0,
            r.max_concurrent_downloads == max_concurrent_downloads,
    {
        VersionManager {
            versions_dir,
            cached_manifest: None,
            history: VersionHistory::new(),
            current_view: VersionView::Recent,
            versions: Vec::new(),
            max_concurrent_downloads,
        }
    }

    /// Installs a freshly fetched or reloaded manifest snapshot as the
    /// authoritative one.
    pub fn apply_manifest(&mut self, m: VersionManifest)
        ensures
            final(self).versions@ == m.versions@,
            final(self).cached_manifest == Some(m),
            final(self).versions_dir == old(self).versions_dir,
            final(self).history == old(self).history,
            final(self).current_view == old(self).current_view,
            final(self).max_concurrent_downloads == old(self).max_concurrent_downloads,
    {
        self.versions = clone_versions(&m.versions);
        self.cached_manifest = Some(m);
    }

    /// Cycles through the three views.
    pub fn toggle_view(&mut self)
        ensures
            final(self).current_view == (match old(self).current_view {
                VersionView::Recent => VersionView::All,
                VersionView::All => VersionView::Modded,
                VersionView::Modded => VersionView::Recent,
            }),
            final(self).versions@ == old(self).versions@,
            final(self).history == old(self).history,
            final(self).versions_dir == old(self).versions_dir,
            final(self).cached_manifest == old(self).cached_manifest,
            final(self).max_concurrent_downloads == old(self).max_concurrent_downloads,
    {
        self.current_view = match self.current_view {
            VersionView::Recent => VersionView::All,
            VersionView::All => VersionView::Modded,
            VersionView::Modded => VersionView::Recent,
        };
    }

    pub fn set_max_concurrent_downloads(&mut self, max_concurrent: usize)
        ensures
            final(self).max_concurrent_downloads == max_concurrent,
            final(self).versions@ == old(self).versions@,
            final(self).history == old(self).history,
            final(self).versions_dir == old(self).versions_dir,
            final(self).cached_manifest == old(self).cached_manifest,
            final(self).current_view == old(self).current_view,
    {
        self.max_concurrent_downloads = max_concurrent;
    }

    /// Records a version as used now; the caller persists the history.
    pub fn mark_version_used(&mut self, version_id: String, now: i64)
        requires
            old(self).history.wf(),
        ensures
            final(self).history.wf(),
            final(self).history.recent_versions.deep_view()[0] == version_id@,
            final(self).history.recent_versions@.len() >= 1,
            final(self).versions@ == old(self).versions@,
            final(self).versions_dir == old(self).versions_dir,
            final(self).cached_manifest == old(self).cached_manifest,
            final(self).current_view == old(self).current_view,
            final(self).max_concurrent_downloads == old(self).max_concurrent_downloads,
    {
        let ghost gid = version_id@;
        self.history.mark_version_used(version_id, now);
        proof {
            let dv = self.history.recent_versions.deep_view();
            assert(dv.len() == self.history.recent_versions@.len());
            let full = seq![gid] + remove_first_str(
                old(self).history.recent_versions.deep_view(),
                gid,
            );
            assert(full[0] == gid);
            if full.len() > RECENT_VERSIONS_LIMIT as int {
                assert(dv == full.take(RECENT_VERSIONS_LIMIT as int));
                assert(dv[0] == full[0]);
            } else {
                assert(dv == full);
            }
        }
    }

    pub fn get_versions(&self) -> (r: &Vec<MinecraftVersion>)
        ensures
            r@ == self.versions@,
    {
        &self.versions
    }

    /// The path of a version\'s client binary under the versions
    /// directory.
    pub fn get_version_jar_path(&self, version_id: &str) -> (r: String)
        ensures
            r@ == self.versions_dir@ + seq!['/'] + version_id@ + seq!['/'] + version_id@
                + ".jar"@,
    {
        let dir = path_join(self.versions_dir.as_str(), version_id);
        let mut name = version_id.to_owned();
        name.append(".jar");
        let r = path_join(dir.as_str(), name.as_str());
        proof {
            assert(r@ =~= self.versions_dir@ + seq!['/'] + version_id@ + seq!['/'] + version_id@
                + ".jar"@);
        }
        r
    }

    /// The path of a version\'s descriptor document.
    pub fn get_version_json_path(&self, version_id: &str) -> (r: String)
        ensures
            r@ == self.versions_dir@ + seq!['/'] + version_id@ + seq!['/'] + version_id@
                + ".json"@,
    {
        let dir = path_join(self.versions_dir.as_str(), version_id);
        let mut name = version_id.to_owned();
        name.append(".json");
        let r = path_join(dir.as_str(), name.as_str());
        proof {
            assert(r@ =~= self.versions_dir@ + seq!['/'] + version_id@ + seq!['/'] + version_id@
                + ".json"@);
        }
        r
    }

    /// The shared libraries root under the versions directory.
    pub fn get_libraries_dir(&self) -> (r: String)
        ensures
            r@ == self.versions_dir@ + seq!['/'] + "libraries"@,
    {
        path_join(self.versions_dir.as_str(), "libraries")
    }

    /// Every version of the current manifest snapshot.
    pub fn get_all_versions(&self) -> (r: Vec<MinecraftVersion>)
        ensures
            r@ == self.versions@,
    {
        clone_versions(&self.versions)
    }

    /// The recently used versions, most recent first: for each remembered
    /// id, the first manifest row carrying it; ids no longer in the
    /// manifest are skipped.
    pub fn get_recent_versions(&self) -> (r: Vec<MinecraftVersion>)
        ensures
            r@ == spec_recent_versions(
                self.history.recent_versions.deep_view(),
                self.versions@,
            ),
    {
        let ghost ids = self.history.recent_versions.deep_view();
        let n = self.history.recent_versions.len();
        let mut out: Vec<MinecraftVersion> = Vec::new();
        let mut i: usize = 0;
        while i < n
            invariant
                n == self.history.recent_versions@.len(),
                ids == self.history.recent_versions.deep_view(),
                i <= n,
                out@ == spec_recent_versions(ids.take(i as int), self.versions@),
            decreases n - i,
        {
            let id = self.history.recent_versions[i].as_str();
            proof {
                assert(ids.take(i + 1) =~= ids.take(i as int).push(ids[i as int]));
                lemma_recent_versions_push(ids.take(i as int), ids[i as int], self.versions@);
                assert(ids[i as int] == id@);
            }
            match self.find_version(id) {
                Some(v) => {
                    out.push(clone_version(v));
                },
                None => {},
            }
            i += 1;
        }
        proof {
            assert(ids.take(n as int) =~= ids);
        }
        out
    }

    /// Versions for installed mod loaders; none are tracked here.
    pub fn get_modded_versions(&self) -> (r: Vec<MinecraftVersion>)
        ensures
            r@.len() == 0,
    {
        Vec::new()
    }

    /// The versions the active view shows.
    pub fn get_current_versions(&self) -> (r: Vec<MinecraftVersion>)
        ensures
            match self.current_view {
                VersionView::Recent => r@ == spec_recent_versions(
                    self.history.recent_versions.deep_view(),
                    self.versions@,
                ),
                VersionView::All => r@ == self.versions@,
                VersionView::Modded => r@.len() == 0,
            },
    {
        match self.current_view {
            VersionView::Recent => self.get_recent_versions(),
            VersionView::All => self.get_all_versions(),
            VersionView::Modded => self.get_modded_versions(),
        }
    }

    /// The first manifest row carrying `id`, if the manifest knows it.
    pub fn find_version(&self, id: &str) -> (r: Option<&MinecraftVersion>)
        ensures
            match r {
                Some(v) => first_with_id(self.versions@, id@) == Some(*v),
                None => first_with_id(self.versions@, id@) is None,
            },
    {
        let n = self.versions.len();
        let mut i: usize = 0;
        while i < n
            invariant
                n == self.versions@.len(),
                i <= n,
                forall|k: int| 0 <= k < i ==> (#[trigger] self.versions@[k]).id@ != id@,
            decreases n - i,
        {
            if crate::strutil::str_eq(id, self.versions[i].id.as_str()) {
                proof {
                    lemma_first_with_id_at(self.versions@, id@, i as int);
                }
                return Some(&self.versions[i]);
            }
            i += 1;
        }
        proof {
            lemma_first_with_id_absent(self.versions@, id@);
        }
        None
    }
}

/// The first row of `vs` whose id reads `id`.
pub open spec fn first_with_id(vs: Seq<MinecraftVersion>, id: Seq<char>) -> Option<
    MinecraftVersion,
>
    decreases vs.len(),
{
    if vs.len() == 0 {
        None
    } else if vs[0].id@ == id {
        Some(vs[0])
    } else {
        first_with_id(vs.drop_first(), id)
    }
}

/// For each id in order, the first row carrying it; ids without a row
/// contribute nothing.
pub open spec fn spec_recent_versions(
    ids: Seq<Seq<char>>,
    vs: Seq<MinecraftVersion>,
) -> Seq<MinecraftVersion>
    decreases ids.len(),
{
    if ids.len() == 0 {
        Seq::empty()
    } else {
        let rest = spec_recent_versions(ids.drop_first(), vs);
        match first_with_id(vs, ids[0]) {
            Some(v) => seq![v] + rest,
            None => rest,
        }
    }
}

proof fn lemma_recent_versions_push(ids: Seq<Seq<char>>, x: Seq<char>, vs: Seq<MinecraftVersion>)
    ensures
        spec_recent_versions(ids.push(x), vs) == spec_recent_versions(ids, vs) + (
        match first_with_id(vs, x) {
            Some(v) => seq![v],
            None => Seq::empty(),
        }),
    decreases ids.len(),
{
    if ids.len() == 0 {
        assert(ids.push(x)[0] == x);
        assert(ids.push(x).drop_first() =~= Seq::<Seq<char>>::empty());
        assert(spec_recent_versions(ids, vs) =~= Seq::<MinecraftVersion>::empty());
        assert(spec_recent_versions(Seq::<Seq<char>>::empty(), vs) =~= Seq::<
            MinecraftVersion,
        >::empty());
        match first_with_id(vs, x) {
            Some(v) => {
                assert(spec_recent_versions(ids.push(x), vs) =~= spec_recent_versions(ids, vs)
                    + seq![v]);
            },
            None => {
                assert(spec_recent_versions(ids.push(x), vs) =~= spec_recent_versions(ids, vs));
            },
        }
    } else {
        lemma_recent_versions_push(ids.drop_first(), x, vs);
        assert(ids.push(x).drop_first() =~= ids.drop_first().push(x));
        assert(ids.push(x)[0] == ids[0]);
        match first_with_id(vs, ids[0]) {
            Some(v) => {
                assert(spec_recent_versions(ids.push(x), vs) =~= spec_recent_versions(ids, vs) + (
                match first_with_id(vs, x) {
                    Some(w) => seq![w],
                    None => Seq::empty(),
                }));
            },
            None => {
                assert(spec_recent_versions(ids.push(x), vs) =~= spec_recent_versions(ids, vs) + (
                match first_with_id(vs, x) {
                    Some(w) => seq![w],
                    None => Seq::empty(),
                }));
            },
        }
    }
}

proof fn lemma_first_with_id_at(vs: Seq<MinecraftVersion>, id: Seq<char>, k: int)
    requires
        0 <= k < vs.len(),
        vs[k].id@ == id,
        forall|m: int| 0 <= m < k ==> vs[m].id@ != id,
    ensures
        first_with_id(vs, id) == Some(vs[k]),
    decreases k,
{
    if k > 0 {
        lemma_first_with_id_at(vs.drop_first(), id, k - 1);
    }
}

proof fn lemma_first_with_id_absent(vs: Seq<MinecraftVersion>, id: Seq<char>)
    requires
        forall|m: int| 0 <= m < vs.len() ==> vs[m].id@ != id,
    ensures
        first_with_id(vs, id) is None,
    decreases vs.len(),
{
    if vs.len() > 0 {
        lemma_first_with_id_absent(vs.drop_first(), id);
    }
}

fn clone_str(s: &String) -> (r: String)
    ensures
        r@ == s@,
{
    s.clone()
}

/// Joins a directory and a name with `/`.
pub fn path_join(dir: &str, name: &str) -> (r: String)
    ensures
        r@ == dir@ + seq!['/'] + name@,
{
    let mut r = dir.to_owned();
    r.append("/");
    r.append(name);
    proof {
        reveal_strlit("/");
        assert(r@ =~= dir@ + seq!['/'] + name@);
    }
    r
}

} // verus!
