//! Registering shared Steam library folders in a fresh seat HOME.
//!
//! Seeds a seat's Steam `libraryfolders.vdf` so it already knows about shared library
//! folders (e.g. a system SteamLibrary), letting installed games launch without
//! re-downloading. The file is written only where it is absent, so the config that Steam
//! evolves and rewrites after its first run is never clobbered.

use vstd::prelude::*;
use vstd::string::*;

use crate::text::decimal_string;
use crate::text::join_path;

verus! {

/// The folders that exist, in order; `is_dir` tells of each whether it does.
pub open spec fn present(libraries: Seq<Seq<char>>, is_dir: Seq<bool>) -> Seq<Seq<char>>
    recommends
        libraries.len() == is_dir.len(),
    decreases libraries.len(),
{
    if libraries.len() == 0 {
        libraries
    } else {
        let before = present(libraries.drop_last(), is_dir.drop_last());
        if is_dir.last() {
            before.push(libraries.last())
        } else {
            before
        }
    }
}

/// One library folder, under its number. Minimal path-only entry; Steam fills in
/// contentid/size/apps on first run.
pub open spec fn entry(index: nat, path: Seq<char>) -> Seq<char> {
    "\t\""@ + crate::text::decimal(index) + "\"\n\t{\n\t\t\"path\"\t\t\""@ + path + "\"\n\t}\n"@
}

/// The shared folders, numbered from 1.
pub open spec fn entries(libraries: Seq<Seq<char>>) -> Seq<char>
    decreases libraries.len(),
{
    if libraries.len() == 0 {
        Seq::empty()
    } else {
        entries(libraries.drop_last()) + entry(libraries.len(), libraries.last())
    }
}

/// The text of `libraryfolders.vdf`: number 0 is the seat's own install library; the
/// shared folders follow.
pub open spec fn vdf(steam_dir: Seq<char>, libraries: Seq<Seq<char>>) -> Seq<char> {
    "\"libraryfolders\"\n{\n"@ + entry(0, steam_dir) + entries(libraries) + "}\n"@
}

/// The Steam directory in a HOME.
pub open spec fn steam_dir_of(seat_home: Seq<char>) -> Seq<char> {
    crate::text::joined(seat_home, ".local/share/Steam"@)
}

fn push_entry(out: &mut String, index: usize, path: &str)
    ensures
        final(out)@ == old(out)@ + entry(index as nat, path@),
{
    let number = decimal_string(index);
    out.append("\t\"");
    out.append(number.as_str());
    out.append("\"\n\t{\n\t\t\"path\"\t\t\"");
    out.append(path);
    out.append("\"\n\t}\n");
    assert(out@ =~= old(out)@ + entry(index as nat, path@));
}

/// Writes `libraryfolders.vdf` for a seat whose own library is `steam_dir`.
pub fn library_folders_vdf(steam_dir: &str, libraries: &Vec<String>) -> (r: String)
    ensures
        r@ == vdf(steam_dir@, crate::config::texts(libraries@)),
{
    let ghost list = crate::config::texts(libraries@);
    let ghost head = "\"libraryfolders\"\n{\n"@ + entry(0, steam_dir@);
    let mut out = String::new();
    out.append("\"libraryfolders\"\n{\n");
    push_entry(&mut out, 0, steam_dir);
    let mut i: usize = 0;
    proof {
        assert(out@ =~= head + entries(list.take(0)));
    }
    while i < libraries.len()
        invariant
            i <= libraries@.len(),
            list == crate::config::texts(libraries@),
            out@ == head + entries(list.take(i as int)),
        decreases libraries@.len() - i,
    {
        let ghost before = list.take(i as int);
        push_entry(&mut out, i + 1, libraries[i].as_str());
        i += 1;
        proof {
            assert(list.take(i as int).drop_last() =~= before);
            assert(out@ =~= head + entries(list.take(i as int)));
        }
    }
    out.append("}\n");
    proof {
        assert(list.take(i as int) =~= list);
    }
    out
}

/// A file to seed and the directory that it lies in.
pub struct SeedTarget {
    pub dir: String,
    pub file: String,
}

/// What is to be seeded into a HOME.
pub struct SeedPlan {
    pub steam_dir: String,
    /// The text of each file.
    pub contents: String,
    pub targets: Vec<SeedTarget>,
    /// How many shared folders are registered.
    pub registered: usize,
}

/// Whether `target` is the library list in the directory `rel` of `steam_dir`.
pub open spec fn is_target(target: SeedTarget, steam_dir: Seq<char>, rel: Seq<char>) -> bool {
    &&& target.dir@ == crate::text::joined(steam_dir, rel)
    &&& target.file@ == crate::text::joined(target.dir@, "libraryfolders.vdf"@)
}

fn seed_target(steam_dir: &str, rel: &str) -> (r: SeedTarget)
    ensures
        is_target(r, steam_dir@, rel@),
{
    let dir = join_path(steam_dir, rel);
    let file = join_path(dir.as_str(), "libraryfolders.vdf");
    SeedTarget { dir, file }
}

/// Keeps the folders that exist.
fn keep_present(libraries: &Vec<String>, is_dir: &Vec<bool>) -> (r: Vec<String>)
    requires
        libraries@.len() == is_dir@.len(),
    ensures
        crate::config::texts(r@) == present(crate::config::texts(libraries@), is_dir@),
{
    let ghost list = crate::config::texts(libraries@);
    let mut kept: Vec<String> = Vec::new();
    let mut i: usize = 0;
    proof {
        assert(crate::config::texts(kept@) =~= present(list.take(0), is_dir@.take(0)));
    }
    while i < libraries.len()
        invariant
            i <= libraries@.len(),
            libraries@.len() == is_dir@.len(),
            list == crate::config::texts(libraries@),
            crate::config::texts(kept@) == present(list.take(i as int), is_dir@.take(i as int)),
        decreases libraries@.len() - i,
    {
        let ghost before = crate::config::texts(kept@);
        proof {
            assert(list.take(i + 1).drop_last() =~= list.take(i as int));
            assert(is_dir@.take(i + 1).drop_last() =~= is_dir@.take(i as int));
        }
        if is_dir[i] {
            kept.push(libraries[i].clone());
            assert(crate::config::texts(kept@) =~= before.push(list[i as int]));
        }
        i += 1;
    }
    proof {
        assert(list.take(i as int) =~= list);
        assert(is_dir@.take(i as int) =~= is_dir@);
    }
    kept
}

/// What to seed into `seat_home`, given of each library folder whether it exists.
/// Nothing where none does.
pub fn seed_plan(seat_home: &str, libraries: &Vec<String>, is_dir: &Vec<bool>) -> (r: Option<
    SeedPlan,
>)
    requires
        libraries@.len() == is_dir@.len(),
    ensures
        ({
            let shared = present(crate::config::texts(libraries@), is_dir@);
            match r {
                Some(plan) => {
                    &&& shared.len() > 0
                    &&& plan.registered == shared.len()
                    &&& plan.steam_dir@ == steam_dir_of(seat_home@)
                    &&& plan.contents@ == vdf(steam_dir_of(seat_home@), shared)
                    &&& plan.targets@.len() == 2
                    &&& is_target(plan.targets@[0], steam_dir_of(seat_home@), "steamapps"@)
                    &&& is_target(plan.targets@[1], steam_dir_of(seat_home@), "config"@)
                },
                None => shared.len() == 0,
            }
        }),
        r is Some <==> exists|i: int| 0 <= i < is_dir@.len() && #[trigger] is_dir@[i],
        r matches Some(plan) ==> {
            &&& plan.registered == is_dir@.filter(|b: bool| b).len()
            &&& plan.targets@[0].dir@ == plan.steam_dir@ + "/steamapps"@
            &&& plan.targets@[0].file@ == plan.steam_dir@ + "/steamapps/libraryfolders.vdf"@
            &&& plan.targets@[1].dir@ == plan.steam_dir@ + "/config"@
            &&& plan.targets@[1].file@ == plan.steam_dir@ + "/config/libraryfolders.vdf"@
        },
{
    let shared = keep_present(libraries, is_dir);
    proof {
        assert(crate::config::texts(shared@).len() == shared@.len());
        lemma_present_count(crate::config::texts(libraries@), is_dir@);
        let kept = law_present_folders_are_kept(crate::config::texts(libraries@), is_dir@);
        if shared@.len() > 0 {
            assert(kept.contains(kept[0]));
        }
        assert forall|i: int| 0 <= i < is_dir@.len() && #[trigger] is_dir@[i] implies shared@.len()
            > 0 by {
            assert(kept.contains(i));
        }
        lemma_seed_files(seat_home@);
    }
    if shared.len() == 0 {
        return None;
    }
    let steam_dir = join_path(seat_home, ".local/share/Steam");
    let contents = library_folders_vdf(steam_dir.as_str(), &shared);
    let mut targets: Vec<SeedTarget> = Vec::new();
    targets.push(seed_target(steam_dir.as_str(), "steamapps"));
    targets.push(seed_target(steam_dir.as_str(), "config"));
    Some(SeedPlan { steam_dir, contents, targets, registered: shared.len() })
}

/// What is to be done next to seed a list of targets.
#[derive(Debug, Clone, Copy, PartialEq, Eq, Structural)]
pub enum SeedAction {
    /// Look whether the file is absent. Goes well where it is.
    Probe(usize),
    /// Create the directory.
    CreateDir(usize),
    /// Write the file.
    Write(usize),
    /// Nothing.
    Done,
}

/// The look at the target `i`, or the end where there is none.
pub open spec fn probe(i: int, total: usize) -> SeedAction {
    if i < total {
        SeedAction::Probe(i as usize)
    } else {
        SeedAction::Done
    }
}

/// What is due after `action`, which went well or not: on to the next part of the same
/// target, or to the next target.
pub open spec fn seed_next(action: SeedAction, total: usize, ok: bool) -> SeedAction {
    match action {
        SeedAction::Probe(i) => if ok {
            SeedAction::CreateDir(i)
        } else {
            probe(i + 1, total)
        },
        SeedAction::CreateDir(i) => if ok {
            SeedAction::Write(i)
        } else {
            probe(i + 1, total)
        },
        SeedAction::Write(i) => probe(i + 1, total),
        SeedAction::Done => SeedAction::Done,
    }
}

/// What is due after all of `results`, for `total` targets.
pub open spec fn seed_run(total: usize, results: Seq<bool>) -> SeedAction
    decreases results.len(),
{
    if results.len() == 0 {
        probe(0, total)
    } else {
        seed_next(seed_run(total, results.drop_last()), total, results.last())
    }
}

/// What to begin with, for `total` targets.
pub fn first_seed_action(total: usize) -> (r: SeedAction)
    ensures
        r == probe(0, total),
{
    if total > 0 {
        SeedAction::Probe(0)
    } else {
        SeedAction::Done
    }
}

/// What is due after `action`, which went well or not.
pub fn next_seed_action(action: SeedAction, total: usize, ok: bool) -> (r: SeedAction)
    ensures
        r == seed_next(action, total, ok),
{
    let i: usize = match action {
        SeedAction::Probe(i) => {
            if ok {
                return SeedAction::CreateDir(i);
            }
            i
        },
        SeedAction::CreateDir(i) => {
            if ok {
                return SeedAction::Write(i);
            }
            i
        },
        SeedAction::Write(i) => i,
        SeedAction::Done => {
            return SeedAction::Done;
        },
    };
    if total > 0 && i < total - 1 {
        SeedAction::Probe(i + 1)
    } else {
        SeedAction::Done
    }
}

/// A file is never clobbered: where writing it is due, the last thing but one was to look
/// at that very file, which was absent, and the last was to create its directory, which
/// went well.
pub proof fn law_seeding_never_clobbers(total: usize, results: Seq<bool>, i: usize)
    requires
        seed_run(total, results) == SeedAction::Write(i),
    ensures
        results.len() >= 2,
        seed_run(total, results.take(results.len() - 2)) == SeedAction::Probe(i),
        results[results.len() - 2],
        seed_run(total, results.take(results.len() - 1)) == SeedAction::CreateDir(i),
        results[results.len() - 1],
{
    let one = results.drop_last();
    assert(one =~= results.take(results.len() - 1));
    assert(seed_run(total, one) == SeedAction::CreateDir(i));
    let two = one.drop_last();
    assert(two =~= results.take(results.len() - 2));
}

/// An absent file is written once its directory is there.
pub proof fn law_absent_file_is_written(total: usize, results: Seq<bool>, i: usize)
    requires
        seed_run(total, results) == SeedAction::Probe(i),
    ensures
        seed_run(total, results.push(true).push(true)) == SeedAction::Write(i),
{
    assert(results.push(true).drop_last() =~= results);
    assert(seed_run(total, results.push(true)) == SeedAction::CreateDir(i));
    assert(results.push(true).push(true).drop_last() =~= results.push(true));
}

/// The target that an action is about.
spec fn target_of(action: SeedAction, total: usize) -> int {
    match action {
        SeedAction::Probe(i) => i as int,
        SeedAction::CreateDir(i) => i as int,
        SeedAction::Write(i) => i as int,
        SeedAction::Done => total as int,
    }
}

/// How many results an action comes after at least, within its target.
spec fn stage_of(action: SeedAction) -> int {
    match action {
        SeedAction::Probe(_) => 0,
        SeedAction::CreateDir(_) => 1,
        SeedAction::Write(_) => 2,
        SeedAction::Done => 0,
    }
}

proof fn lemma_seed_progress(total: usize, results: Seq<bool>)
    ensures
        ({
            let action = seed_run(total, results);
            &&& 0 <= target_of(action, total) <= total
            &&& target_of(action, total) == total ==> action is Done
            &&& action is Done || 3 * target_of(action, total) + stage_of(action) >= results.len()
        }),
    decreases results.len(),
{
    if results.len() > 0 {
        lemma_seed_progress(total, results.drop_last());
    }
}

/// Seeding comes to an end: three results for each target are enough.
pub proof fn law_seeding_ends(total: usize, results: Seq<bool>)
    requires
        results.len() >= 3 * total,
    ensures
        seed_run(total, results) is Done,
{
    lemma_seed_progress(total, results);
}

/// Every target is looked at, whatever became of those before it.
pub proof fn law_every_target_is_probed(total: usize, results: Seq<bool>, i: usize) -> (n: int)
    requires
        i < total,
        seed_run(total, results) is Done,
    ensures
        0 <= n <= results.len(),
        seed_run(total, results.take(n)) == SeedAction::Probe(i),
{
    lemma_reaches(total, results, i)
}

proof fn lemma_reaches(total: usize, results: Seq<bool>, i: usize) -> (n: int)
    requires
        i < total,
        target_of(seed_run(total, results), total) >= i,
    ensures
        0 <= n <= results.len(),
        seed_run(total, results.take(n)) == SeedAction::Probe(i),
    decreases results.len(),
{
    if results.len() == 0 {
        assert(results.take(0) =~= results);
        0
    } else {
        let before = results.drop_last();
        lemma_seed_progress(total, before);
        if target_of(seed_run(total, before), total) >= i {
            let n = lemma_reaches(total, before, i);
            assert(before.take(n) =~= results.take(n));
            n
        } else {
            assert(results.take(results.len() as int) =~= results);
            results.len() as int
        }
    }
}

/// The folders that exist are registered, all of them and no other, in the order in which
/// they are configured. `kept` are their positions.
pub proof fn law_present_folders_are_kept(
    libraries: Seq<Seq<char>>,
    is_dir: Seq<bool>,
) -> (kept: Seq<int>)
    requires
        libraries.len() == is_dir.len(),
    ensures
        forall|k: int| 0 <= k < kept.len() ==> 0 <= #[trigger] kept[k] < libraries.len(),
        forall|k: int, l: int| 0 <= k < l < kept.len() ==> kept[k] < kept[l],
        forall|i: int| 0 <= i < is_dir.len() ==> (#[trigger] kept.contains(i) <==> is_dir[i]),
        present(libraries, is_dir).len() == kept.len(),
        forall|k: int|
            0 <= k < kept.len() ==> #[trigger] present(libraries, is_dir)[k] == libraries[kept[k]],
    decreases libraries.len(),
{
    if libraries.len() == 0 {
        Seq::empty()
    } else {
        let n = libraries.len() - 1;
        let before = law_present_folders_are_kept(libraries.drop_last(), is_dir.drop_last());
        assert forall|i: int| 0 <= i < n implies (#[trigger] before.contains(i) <==> is_dir[i]) by {
            assert(is_dir.drop_last()[i] == is_dir[i]);
        }
        if is_dir.last() {
            let kept = before.push(n);
            assert(kept[before.len() as int] == n);
            assert forall|i: int| 0 <= i < is_dir.len() implies (#[trigger] kept.contains(i)
                <==> is_dir[i]) by {
                if before.contains(i) {
                    let k = before.index_of(i);
                    assert(kept[k] == i);
                }
                if i < n && kept.contains(i) {
                    let k = kept.index_of(i);
                    assert(before[k] == i);
                }
            }
            kept
        } else {
            assert(!before.contains(n));
            before
        }
    }
}

/// As many folders are registered as exist.
proof fn lemma_present_count(libraries: Seq<Seq<char>>, is_dir: Seq<bool>)
    requires
        libraries.len() == is_dir.len(),
    ensures
        present(libraries, is_dir).len() == is_dir.filter(|b: bool| b).len(),
    decreases libraries.len(),
{
    reveal(Seq::filter);
    if libraries.len() > 0 {
        lemma_present_count(libraries.drop_last(), is_dir.drop_last());
    }
}

/// How two lists of folders relate: with one more folder that exists, that one comes last;
/// with one more that does not, nothing changes.
pub proof fn law_one_more_folder(
    libraries: Seq<Seq<char>>,
    is_dir: Seq<bool>,
    path: Seq<char>,
    exists_too: bool,
)
    requires
        libraries.len() == is_dir.len(),
    ensures
        present(libraries.push(path), is_dir.push(exists_too)) == present(libraries, is_dir) + (
        if exists_too {
            seq![path]
        } else {
            Seq::empty()
        }),
{
    assert(libraries.push(path).drop_last() =~= libraries);
    assert(is_dir.push(exists_too).drop_last() =~= is_dir);
}

/// The list of a seat without shared folders has the seat's own library, under number 0.
pub proof fn law_own_library_comes_first(steam_dir: Seq<char>)
    ensures
        vdf(steam_dir, Seq::empty()) == "\"libraryfolders\"\n{\n\t\"0\"\n\t{\n\t\t\"path\"\t\t\""@
            + steam_dir + "\"\n\t}\n}\n"@,
{
    reveal_strlit("\"libraryfolders\"\n{\n\t\"0\"\n\t{\n\t\t\"path\"\t\t\"");
    reveal_strlit("\"\n\t}\n}\n");
    reveal_strlit("\"libraryfolders\"\n{\n");
    reveal_strlit("\t\"");
    reveal_strlit("\"\n\t{\n\t\t\"path\"\t\t\"");
    reveal_strlit("\"\n\t}\n");
    reveal_strlit("}\n");
    assert(crate::text::decimal(0) =~= seq!['0']);
    assert(vdf(steam_dir, Seq::empty())
        =~= "\"libraryfolders\"\n{\n\t\"0\"\n\t{\n\t\t\"path\"\t\t\""@ + steam_dir
        + "\"\n\t}\n}\n"@);
}

/// How the lists of two seats relate: with one more shared folder, the list has one more
/// entry at its end, before the closing brace, with that folder's path as it is and the
/// next number.
pub proof fn law_one_more_entry(steam_dir: Seq<char>, libraries: Seq<Seq<char>>, path: Seq<char>)
    ensures
        vdf(steam_dir, libraries).len() >= 2,
        vdf(steam_dir, libraries).skip(vdf(steam_dir, libraries).len() - 2) == "}\n"@,
        vdf(steam_dir, libraries.push(path)) == vdf(steam_dir, libraries).take(
            vdf(steam_dir, libraries).len() - 2,
        ) + "\t\""@ + crate::text::decimal(libraries.len() + 1)
            + "\"\n\t{\n\t\t\"path\"\t\t\""@ + path + "\"\n\t}\n"@ + "}\n"@,
{
    reveal_strlit("}\n");
    let head = "\"libraryfolders\"\n{\n"@ + entry(0, steam_dir) + entries(libraries);
    let old = vdf(steam_dir, libraries);
    assert(old == head + "}\n"@);
    assert(old.take(old.len() - 2) =~= head);
    assert(old.skip(old.len() - 2) =~= "}\n"@);
    assert(libraries.push(path).drop_last() =~= libraries);
    assert(entries(libraries.push(path)) == entries(libraries) + entry(libraries.len() + 1, path));
    assert(vdf(steam_dir, libraries.push(path)) =~= head + entry(libraries.len() + 1, path)
        + "}\n"@);
    assert(vdf(steam_dir, libraries.push(path)) =~= old.take(old.len() - 2) + "\t\""@
        + crate::text::decimal(libraries.len() + 1) + "\"\n\t{\n\t\t\"path\"\t\t\""@ + path
        + "\"\n\t}\n"@ + "}\n"@);
}

/// Steam's directory lies below the HOME, whether or not that is written with a separator
/// at its end.
pub proof fn law_steam_dir_is_below_home(seat_home: Seq<char>)
    ensures
        seat_home.len() > 0 && seat_home[seat_home.len() - 1] != '/' ==> steam_dir_of(seat_home)
            == seat_home + "/.local/share/Steam"@,
        steam_dir_of(seat_home + seq!['/']) == seat_home + "/.local/share/Steam"@,
        steam_dir_of(Seq::empty()) == ".local/share/Steam"@,
{
    reveal_strlit("/.local/share/Steam");
    reveal_strlit(".local/share/Steam");
    assert("/.local/share/Steam"@ =~= seq!['/'] + ".local/share/Steam"@);
    crate::text::law_joined_path(seat_home, ".local/share/Steam"@);
    assert(seat_home + seq!['/'] + ".local/share/Steam"@ =~= seat_home + "/.local/share/Steam"@);
}

/// The files that are seeded, by the Steam directory.
proof fn lemma_seed_files(seat_home: Seq<char>)
    ensures
        ({
            let steam_dir = steam_dir_of(seat_home);
            let apps = crate::text::joined(steam_dir, "steamapps"@);
            let config = crate::text::joined(steam_dir, "config"@);
            &&& apps == steam_dir + "/steamapps"@
            &&& config == steam_dir + "/config"@
            &&& crate::text::joined(apps, "libraryfolders.vdf"@) == steam_dir
                + "/steamapps/libraryfolders.vdf"@
            &&& crate::text::joined(config, "libraryfolders.vdf"@) == steam_dir
                + "/config/libraryfolders.vdf"@
        }),
{
    let steam_dir = steam_dir_of(seat_home);
    reveal_strlit(".local/share/Steam");
    reveal_strlit("steamapps");
    reveal_strlit("config");
    reveal_strlit("libraryfolders.vdf");
    reveal_strlit("/steamapps");
    reveal_strlit("/config");
    reveal_strlit("/steamapps/libraryfolders.vdf");
    reveal_strlit("/config/libraryfolders.vdf");
    assert(steam_dir.len() > 0 && steam_dir.last() == 'm');
    let apps = crate::text::joined(steam_dir, "steamapps"@);
    let config = crate::text::joined(steam_dir, "config"@);
    assert(apps =~= steam_dir + "/steamapps"@);
    assert(config =~= steam_dir + "/config"@);
    assert(apps.last() == 's');
    assert(config.last() == 'g');
    assert(crate::text::joined(apps, "libraryfolders.vdf"@) =~= steam_dir
        + "/steamapps/libraryfolders.vdf"@);
    assert(crate::text::joined(config, "libraryfolders.vdf"@) =~= steam_dir
        + "/config/libraryfolders.vdf"@);
}

/// Targets are seeded in turn: a file that is there already, a directory that cannot be
/// created and a write, however it went, each lead on to the next target, and the last
/// target to the end.
pub proof fn law_targets_are_seeded_in_turn(total: usize, i: usize, ok: bool)
    requires
        i < total,
    ensures
        ({
            let onward = if i + 1 < total {
                SeedAction::Probe((i + 1) as usize)
            } else {
                SeedAction::Done
            };
            &&& seed_next(SeedAction::Probe(i), total, ok) == (if ok {
                SeedAction::CreateDir(i)
            } else {
                onward
            })
            &&& seed_next(SeedAction::CreateDir(i), total, ok) == (if ok {
                SeedAction::Write(i)
            } else {
                onward
            })
            &&& seed_next(SeedAction::Write(i), total, ok) == onward
            &&& seed_next(SeedAction::Done, total, ok) == SeedAction::Done
            &&& probe(0, total) == SeedAction::Probe(0)
            &&& probe(0, 0) == SeedAction::Done
        }),
{
}

} // verus!
