use vstd::prelude::*;
use vstd::string::StrSliceExecFns;
use crate::version::has_task_path;
use crate::version::seq_has_string;

verus! {

/// One shared asset object: its content digest and size. Assets are
/// content-addressed: the digest names both the download URL and the
/// on-disk location.
pub struct AssetObject {
    pub hash: String,
    pub size: u64,
}

/// The asset index of one version: logical asset names mapped to their
/// objects, plus the flags asking for a mirrored directory layout.
pub struct AssetIndex {
    pub objects: Vec<(String, AssetObject)>,
    pub virtual_: Option<bool>,
    pub map_to_resources: Option<bool>,
}

/// Where the object with digest `h` lives under the assets directory:
/// `objects/` then the first two digest characters, then the digest.
pub open spec fn spec_asset_dest(assets_dir: Seq<char>, h: Seq<char>) -> Seq<char> {
    assets_dir + seq!['/'] + "objects"@ + seq!['/'] + h.take(2) + seq!['/'] + h
}

/// Where the object with digest `h` is downloaded from.
pub open spec fn spec_asset_url(h: Seq<char>) -> Seq<char> {
    "https://resources.download.minecraft.net/"@ + h.take(2) + seq!['/'] + h
}

/// The task fetches one asset object of `objects` whose digest is long
/// enough to address it and whose file is absent from disk.
pub open spec fn asset_task_stems_from(
    task: (String, String, Option<String>),
    objects: Seq<(String, AssetObject)>,
    assets_dir: Seq<char>,
    present: Seq<String>,
) -> bool {
    exists|k: int|
        {
            &&& 0 <= k < objects.len()
            &&& (#[trigger] objects[k]).1.hash@.len() >= 2
            &&& task.0@ == spec_asset_url(objects[k].1.hash@)
            &&& task.1@ == spec_asset_dest(assets_dir, objects[k].1.hash@)
            &&& task.2 is Some
            &&& (task.2->0)@ == objects[k].1.hash@
            &&& !seq_has_string(present, task.1@)
        }
}

/// The on-disk path for the object with digest `hash`.
pub fn asset_dest(assets_dir: &str, hash: &str) -> (r: String)
    requires
        hash@.len() >= 2,
    ensures
        r@ == spec_asset_dest(assets_dir@, hash@),
{
    let prefix = hash.substring_char(0, 2);
    let a = crate::version::path_join(assets_dir, "objects");
    let b = crate::version::path_join(a.as_str(), prefix);
    let r = crate::version::path_join(b.as_str(), hash);
    proof {
        assert(prefix@ =~= hash@.take(2));
        assert(r@ =~= spec_asset_dest(assets_dir@, hash@));
    }
    r
}

/// The download URL for the object with digest `hash`.
pub fn asset_url(hash: &str) -> (r: String)
    requires
        hash@.len() >= 2,
    ensures
        r@ == spec_asset_url(hash@),
{
    let prefix = hash.substring_char(0, 2);
    let a = crate::version::path_join("https://resources.download.minecraft.net", prefix);
    let r = crate::version::path_join(a.as_str(), hash);
    proof {
        reveal_strlit("https://resources.download.minecraft.net");
        reveal_strlit("https://resources.download.minecraft.net/");
        assert(prefix@ =~= hash@.take(2));
        assert(r@ =~= spec_asset_url(hash@));
    }
    r
}

/// Expands an asset index into concrete download tasks
/// `(url, destination, expected digest)`: one per object whose file is
/// not yet on disk, each destination queued once. Objects whose digest
/// is too short to address a file are not fetchable and are skipped.
pub fn expand_asset_tasks(index: &AssetIndex, assets_dir: &str, present: &Vec<String>) -> (r: Vec<
    (String, String, Option<String>),
>)
    ensures
        forall|i: int, j: int|
            #![trigger r@[i], r@[j]]
            0 <= i < r@.len() && 0 <= j < r@.len() && i != j ==> r@[i].1@ != r@[j].1@,
        forall|t: int|
            0 <= t < r@.len() ==> asset_task_stems_from(
                #[trigger] r@[t],
                index.objects@,
                assets_dir@,
                present@,
            ),
        forall|k: int|
            0 <= k < index.objects@.len() && (#[trigger] index.objects@[k]).1.hash@.len() >= 2
                ==> seq_has_string(
                present@,
                spec_asset_dest(assets_dir@, index.objects@[k].1.hash@),
            ) || has_task_path(r@, spec_asset_dest(assets_dir@, index.objects@[k].1.hash@)),
{
    let n = index.objects.len();
    let mut tasks: Vec<(String, String, Option<String>)> = Vec::new();
    let mut i: usize = 0;
    while i < n
        invariant
            n == index.objects@.len(),
            i <= n,
            forall|x: int, y: int|
                #![trigger tasks@[x], tasks@[y]]
                0 <= x < tasks@.len() && 0 <= y < tasks@.len() && x != y ==> tasks@[x].1@
                    != tasks@[y].1@,
            forall|t: int|
                0 <= t < tasks@.len() ==> asset_task_stems_from(
                    #[trigger] tasks@[t],
                    index.objects@,
                    assets_dir@,
                    present@,
                ),
            forall|k: int|
                0 <= k < i && (#[trigger] index.objects@[k]).1.hash@.len() >= 2
                    ==> seq_has_string(
                    present@,
                    spec_asset_dest(assets_dir@, index.objects@[k].1.hash@),
                ) || has_task_path(
                    tasks@,
                    spec_asset_dest(assets_dir@, index.objects@[k].1.hash@),
                ),
        decreases n - i,
    {
        let hash = &index.objects[i].1.hash;
        if hash.as_str().unicode_len() >= 2 {
            let dest = asset_dest(assets_dir, hash.as_str());
            let already_present = crate::version::vec_has_string(present, dest.as_str());
            let already_queued = tasks_have_path(&tasks, dest.as_str());
            let ghost pre = tasks@;
            if !already_present && !already_queued {
                let url = asset_url(hash.as_str());
                tasks.push((url, dest, Some(clone_str(hash))));
                proof {
                    let ts = tasks@;
                    let t = ts[ts.len() - 1];
                    assert(0 <= i < index.objects@.len() && index.objects@[
                        i as int].1.hash@.len() >= 2 && t.0@ == spec_asset_url(
                        index.objects@[i as int].1.hash@,
                    ) && t.1@ == spec_asset_dest(assets_dir@, index.objects@[i as int].1.hash@)
                        && t.2 is Some && (t.2->0)@ == index.objects@[i as int].1.hash@
                        && !seq_has_string(present@, t.1@));
                    assert(asset_task_stems_from(t, index.objects@, assets_dir@, present@));
                    assert forall|t2: int| 0 <= t2 < ts.len() implies asset_task_stems_from(
                        #[trigger] ts[t2],
                        index.objects@,
                        assets_dir@,
                        present@,
                    ) by {
                        if t2 < pre.len() {
                            assert(ts[t2] == pre[t2]);
                        }
                    }
                    assert forall|x: int, y: int|
                        0 <= x < ts.len() && 0 <= y < ts.len() && x != y implies ts[x].1@
                            != ts[y].1@ by {
                        if x < pre.len() && y < pre.len() {
                            assert(ts[x] == pre[x] && ts[y] == pre[y]);
                        } else if x == pre.len() {
                            assert(ts[y] == pre[y]);
                            assert(!has_task_path(pre, t.1@));
                            assert(pre[y].1@ != t.1@);
                        } else {
                            assert(ts[x] == pre[x]);
                            assert(!has_task_path(pre, t.1@));
                            assert(pre[x].1@ != t.1@);
                        }
                    }
                    assert(has_task_path(ts, spec_asset_dest(
                        assets_dir@,
                        index.objects@[i as int].1.hash@,
                    )));
                }
            }
            proof {
                carry_asset_handled(pre, tasks@, assets_dir@, present@, index.objects@, i as int);
            }
        }
        i += 1;
    }
    tasks
}

/// Earlier objects stay handled when the task list grows.
proof fn carry_asset_handled(
    pre: Seq<(String, String, Option<String>)>,
    post: Seq<(String, String, Option<String>)>,
    assets_dir: Seq<char>,
    present: Seq<String>,
    objects: Seq<(String, AssetObject)>,
    upto: int,
)
    requires
        post.len() >= pre.len(),
        forall|t: int| 0 <= t < pre.len() ==> post[t] == pre[t],
        forall|k: int|
            0 <= k < upto && (#[trigger] objects[k]).1.hash@.len() >= 2 ==> seq_has_string(
                present,
                spec_asset_dest(assets_dir, objects[k].1.hash@),
            ) || has_task_path(pre, spec_asset_dest(assets_dir, objects[k].1.hash@)),
    ensures
        forall|k: int|
            0 <= k < upto && (#[trigger] objects[k]).1.hash@.len() >= 2 ==> seq_has_string(
                present,
                spec_asset_dest(assets_dir, objects[k].1.hash@),
            ) || has_task_path(post, spec_asset_dest(assets_dir, objects[k].1.hash@)),
{
    assert forall|k: int|
        0 <= k < upto && (#[trigger] objects[k]).1.hash@.len() >= 2 implies seq_has_string(
        present,
        spec_asset_dest(assets_dir, objects[k].1.hash@),
    ) || has_task_path(post, spec_asset_dest(assets_dir, objects[k].1.hash@)) by {
        let p = spec_asset_dest(assets_dir, objects[k].1.hash@);
        if !seq_has_string(present, p) {
            let t = choose|t: int| 0 <= t < pre.len() && (#[trigger] pre[t]).1@ == p;
            assert(post[t] == pre[t]);
            assert(has_task_path(post, p));
        }
    }
}

fn tasks_have_path(ts: &Vec<(String, String, Option<String>)>, p: &str) -> (r: bool)
    ensures
        r == has_task_path(ts@, p@),
{
    let n = ts.len();
    let mut i: usize = 0;
    while i < n
        invariant
            n == ts@.len(),
            i <= n,
            forall|k: int| 0 <= k < i ==> (#[trigger] ts@[k]).1@ != p@,
        decreases n - i,
    {
        if crate::strutil::str_eq(p, ts[i].1.as_str()) {
            proof {
                assert(0 <= i < ts@.len() && ts@[i as int].1@ == p@);
            }
            return true;
        }
        i += 1;
    }
    false
}

fn clone_str(s: &String) -> (r: String)
    ensures
        r@ == s@,
{
    s.clone()
}

} // verus!
