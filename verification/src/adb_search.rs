//! Where to look for the `adb` binary, and how to tell that a program is it.
use vstd::prelude::*;
use crate::text::{chars_of, contains_str, contains_text, push_chars, push_str, string_from_chars, texts};

verus! {

broadcast use vstd::string::group_string_axioms;

/// The file name of the `adb` binary on the platform.
pub fn adb_binary_name(windows: bool) -> (name: &'static str)
    ensures
        name@ == if windows {
            "adb.exe"@
        } else {
            "adb"@
        },
{
    if windows {
        "adb.exe"
    } else {
        "adb"
    }
}

/// Whether `c` separates the parts of a path on the platform.
pub open spec fn is_separator(c: char, windows: bool) -> bool {
    c == '/' || (windows && c == '\\')
}

/// The separator that joins the parts of a path on the platform.
pub open spec fn main_separator(windows: bool) -> char {
    if windows {
        '\\'
    } else {
        '/'
    }
}

/// `part` appended to `base`, with a separator between them unless `base`
/// is empty or already ends with one.
pub open spec fn path_join(base: Seq<char>, part: Seq<char>, windows: bool) -> Seq<char> {
    if base.len() == 0 || is_separator(base.last(), windows) {
        base + part
    } else {
        base + seq![main_separator(windows)] + part
    }
}

/// `part` appended to the path `base` (a relative part without separators).
pub fn join_path(base: &str, part: &str, windows: bool) -> (p: String)
    ensures
        p@ == path_join(base@, part@, windows),
{
    let b = chars_of(base);
    let mut out: Vec<char> = Vec::new();
    push_chars(&mut out, b.as_slice());
    if b.len() > 0 {
        let last = b[b.len() - 1];
        if !(last == '/' || (windows && last == '\\')) {
            if windows {
                out.push('\\');
            } else {
                out.push('/');
            }
        }
    }
    push_str(&mut out, part);
    let p = string_from_chars(out.as_slice());
    assert(p@ =~= path_join(base@, part@, windows));
    p
}

/// `items` with each item after its first occurrence left out.
pub open spec fn first_occurrences(items: Seq<Seq<char>>) -> Seq<Seq<char>>
    decreases items.len(),
{
    if items.len() == 0 {
        seq![]
    } else {
        let d = first_occurrences(items.drop_last());
        if d.contains(items.last()) {
            d
        } else {
            d.push(items.last())
        }
    }
}

/// Appends `candidate` unless the list already holds it.
pub fn push_candidate(candidates: &mut Vec<String>, candidate: String)
    ensures
        texts(old(candidates)@).contains(candidate@) ==> final(candidates)@ == old(candidates)@,
        !texts(old(candidates)@).contains(candidate@) ==> final(candidates)@ == old(candidates)@.push(candidate),
{
    let mut i: usize = 0;
    while i < candidates.len()
        invariant
            i <= candidates@.len(),
            candidates@ == old(candidates)@,
            forall|j: int| 0 <= j < i ==> (#[trigger] candidates@[j])@ != candidate@,
        decreases candidates@.len() - i,
    {
        if candidates[i] == candidate {
            assert(texts(old(candidates)@)[i as int] == candidate@);
            return;
        }
        i = i + 1;
    }
    proof {
        if texts(old(candidates)@).contains(candidate@) {
            let j = choose|j: int| 0 <= j < texts(old(candidates)@).len() && texts(old(candidates)@)[j] == candidate@;
            assert(candidates@[j]@ == candidate@);
        }
    }
    candidates.push(candidate);
}

/// What the search for `adb` reads from its surroundings: the variables
/// `ADB_PATH`, `ANDROID_HOME`, `ANDROID_SDK_ROOT`, the home directory,
/// `LOCALAPPDATA`, the directory of the running program and its parent,
/// and whether the platform is Windows.
pub struct AdbSearchEnv {
    pub adb_path: Option<String>,
    pub android_home: Option<String>,
    pub android_sdk_root: Option<String>,
    pub home: Option<String>,
    pub local_app_data: Option<String>,
    pub exe_dir: Option<String>,
    pub exe_parent: Option<String>,
    pub windows: bool,
}

/// `parts` appended one by one to `base`.
pub open spec fn path_join_all(base: Seq<char>, parts: Seq<Seq<char>>, windows: bool) -> Seq<char>
    decreases parts.len(),
{
    if parts.len() == 0 {
        base
    } else {
        path_join(path_join_all(base, parts.drop_last(), windows), parts.last(), windows)
    }
}

/// The binary's name as a path part.
pub open spec fn binary_name(windows: bool) -> Seq<char> {
    if windows {
        "adb.exe"@
    } else {
        "adb"@
    }
}

/// The paths under `base`, made of `parts`, when `base` is there.
pub open spec fn under(base: Option<String>, parts: Seq<Seq<char>>, windows: bool) -> Seq<Seq<char>> {
    match base {
        Some(b) => seq![path_join_all(b@, parts, windows)],
        None => seq![],
    }
}

/// The places where `adb` may be, in the order they are tried, before
/// repeated places are left out.
pub open spec fn candidate_places(env: AdbSearchEnv) -> Seq<Seq<char>> {
    let w = env.windows;
    let name = binary_name(w);
    seq!["adb"@] + under(env.adb_path, seq![], w) + under(env.adb_path, seq![name], w) + under(
        env.android_home,
        seq!["platform-tools"@, name],
        w,
    ) + under(env.android_sdk_root, seq!["platform-tools"@, name], w) + under(
        env.home,
        seq!["Android"@, "Sdk"@, "platform-tools"@, name],
        w,
    ) + (if w {
        under(env.local_app_data, seq!["Android"@, "Sdk"@, "platform-tools"@, name], w)
    } else {
        seq![]
    }) + under(env.exe_dir, seq![name], w) + under(env.exe_dir, seq!["platform-tools"@, name], w) + under(
        env.exe_dir,
        seq!["resources"@, "platform-tools"@, name],
        w,
    ) + (match env.exe_dir {
        Some(_) => under(env.exe_parent, seq!["Resources"@, "platform-tools"@, name], w),
        None => seq![],
    })
}

fn join_all(base: &String, parts: &[&str], windows: bool) -> (p: String)
    ensures
        p@ == path_join_all(base@, parts@.map_values(|s: &str| s@), windows),
{
    let mut p = base.clone();
    let mut i: usize = 0;
    while i < parts.len()
        invariant
            i <= parts@.len(),
            p@ == path_join_all(base@, parts@.take(i as int).map_values(|s: &str| s@), windows),
        decreases parts@.len() - i,
    {
        let ghost before = p@;
        p = join_path(p.as_str(), parts[i], windows);
        assert(parts@.take(i + 1).map_values(|s: &str| s@).drop_last() =~= parts@.take(i as int).map_values(
            |s: &str| s@,
        ));
        i = i + 1;
    }
    assert(parts@.take(parts@.len() as int) =~= parts@);
    p
}

fn push_under(candidates: &mut Vec<String>, base: &Option<String>, parts: &[&str], windows: bool)
    ensures
        texts(final(candidates)@) == first_occurrences_from(
            texts(old(candidates)@),
            under(*base, parts@.map_values(|s: &str| s@), windows),
        ),
{
    match base {
        Some(b) => {
            let p = join_all(b, parts, windows);
            let ghost before = candidates@;
            push_candidate(candidates, p);
            proof {
                lemma_push_first(before, p);
            }
        },
        None => {},
    }
}

/// `items` appended to `done`, each one that `done` does not hold yet.
pub open spec fn first_occurrences_from(done: Seq<Seq<char>>, items: Seq<Seq<char>>) -> Seq<Seq<char>>
    decreases items.len(),
{
    if items.len() == 0 {
        done
    } else {
        let d = first_occurrences_from(done, items.drop_last());
        if d.contains(items.last()) {
            d
        } else {
            d.push(items.last())
        }
    }
}

proof fn lemma_push_first(before: Seq<String>, p: String)
    ensures
        texts(before).contains(p@) ==> texts(before) == first_occurrences_from(texts(before), seq![p@]),
        !texts(before).contains(p@) ==> texts(before.push(p)) == first_occurrences_from(
            texts(before),
            seq![p@],
        ),
{
    let e = seq![p@];
    assert(e.drop_last() =~= Seq::<Seq<char>>::empty());
    assert(first_occurrences_from(texts(before), e.drop_last()) == texts(before));
    assert(e.last() == p@);
    assert(texts(before.push(p)) =~= texts(before).push(p@));
}

proof fn lemma_first_occurrences_append(done: Seq<Seq<char>>, a: Seq<Seq<char>>, b: Seq<Seq<char>>)
    ensures
        first_occurrences_from(first_occurrences_from(done, a), b) == first_occurrences_from(done, a + b),
    decreases b.len(),
{
    if b.len() == 0 {
        assert(a + b =~= a);
    } else {
        lemma_first_occurrences_append(done, a, b.drop_last());
        assert((a + b).drop_last() =~= a + b.drop_last());
        assert((a + b).last() == b.last());
    }
}

proof fn lemma_first_occurrences_empty(items: Seq<Seq<char>>)
    ensures
        first_occurrences_from(seq![], items) == first_occurrences(items),
    decreases items.len(),
{
    if items.len() > 0 {
        lemma_first_occurrences_empty(items.drop_last());
    }
}

/// The places where `adb` may be, in the order they are tried, each once.
pub fn adb_candidates(env: &AdbSearchEnv) -> (candidates: Vec<String>)
    ensures
        texts(candidates@) == first_occurrences(candidate_places(*env)),
{
    let w = env.windows;
    let name = adb_binary_name(w);
    let none: [&str; 0] = [];
    let just_name: [&str; 1] = [name];
    let tools: [&str; 2] = ["platform-tools", name];
    let sdk: [&str; 4] = ["Android", "Sdk", "platform-tools", name];
    let resources: [&str; 3] = ["resources", "platform-tools", name];
    let bundle: [&str; 3] = ["Resources", "platform-tools", name];
    let ghost nm = binary_name(w);
    assert(none@.map_values(|s: &str| s@) =~= Seq::<Seq<char>>::empty());
    assert(just_name@.map_values(|s: &str| s@) =~= seq![nm]);
    assert(tools@.map_values(|s: &str| s@) =~= seq!["platform-tools"@, nm]);
    assert(sdk@.map_values(|s: &str| s@) =~= seq!["Android"@, "Sdk"@, "platform-tools"@, nm]);
    assert(resources@.map_values(|s: &str| s@) =~= seq!["resources"@, "platform-tools"@, nm]);
    assert(bundle@.map_values(|s: &str| s@) =~= seq!["Resources"@, "platform-tools"@, nm]);
    let adb = Some(crate::text::owned("adb"));
    let mut candidates: Vec<String> = Vec::new();
    let ghost mut places: Seq<Seq<char>> = seq![];
    assert(texts(candidates@) =~= Seq::<Seq<char>>::empty());
    push_under(&mut candidates, &adb, &none, w);
    proof {
        places = under(adb, seq![], w);
        assert(path_join_all("adb"@, seq![], w) == "adb"@);
        assert(places =~= seq!["adb"@]);
        lemma_first_occurrences_empty(places);
        assert(texts(candidates@) == first_occurrences(places));
    }
    let ghost step = under(env.adb_path, seq![], w);
    push_under(&mut candidates, &env.adb_path, &none, w);
    proof {
        lemma_first_occurrences_append(seq![], places, step);
        places = places + step;
        lemma_first_occurrences_empty(places);
        assert(texts(candidates@) == first_occurrences(places));
    }
    let ghost step = under(env.adb_path, seq![nm], w);
    push_under(&mut candidates, &env.adb_path, &just_name, w);
    proof {
        lemma_first_occurrences_append(seq![], places, step);
        places = places + step;
        lemma_first_occurrences_empty(places);
        assert(texts(candidates@) == first_occurrences(places));
    }
    let ghost step = under(env.android_home, seq!["platform-tools"@, nm], w);
    push_under(&mut candidates, &env.android_home, &tools, w);
    proof {
        lemma_first_occurrences_append(seq![], places, step);
        places = places + step;
        lemma_first_occurrences_empty(places);
        assert(texts(candidates@) == first_occurrences(places));
    }
    let ghost step = under(env.android_sdk_root, seq!["platform-tools"@, nm], w);
    push_under(&mut candidates, &env.android_sdk_root, &tools, w);
    proof {
        lemma_first_occurrences_append(seq![], places, step);
        places = places + step;
        lemma_first_occurrences_empty(places);
        assert(texts(candidates@) == first_occurrences(places));
    }
    let ghost step = under(env.home, seq!["Android"@, "Sdk"@, "platform-tools"@, nm], w);
    push_under(&mut candidates, &env.home, &sdk, w);
    proof {
        lemma_first_occurrences_append(seq![], places, step);
        places = places + step;
        lemma_first_occurrences_empty(places);
        assert(texts(candidates@) == first_occurrences(places));
    }
    let ghost step = if w {
        under(env.local_app_data, seq!["Android"@, "Sdk"@, "platform-tools"@, nm], w)
    } else {
        seq![]
    };
    if w {
        push_under(&mut candidates, &env.local_app_data, &sdk, w);
    }
    proof {
        lemma_first_occurrences_append(seq![], places, step);
        places = places + step;
        lemma_first_occurrences_empty(places);
        assert(texts(candidates@) == first_occurrences(places));
    }
    let ghost step = under(env.exe_dir, seq![nm], w);
    push_under(&mut candidates, &env.exe_dir, &just_name, w);
    proof {
        lemma_first_occurrences_append(seq![], places, step);
        places = places + step;
        lemma_first_occurrences_empty(places);
        assert(texts(candidates@) == first_occurrences(places));
    }
    let ghost step = under(env.exe_dir, seq!["platform-tools"@, nm], w);
    push_under(&mut candidates, &env.exe_dir, &tools, w);
    proof {
        lemma_first_occurrences_append(seq![], places, step);
        places = places + step;
        lemma_first_occurrences_empty(places);
        assert(texts(candidates@) == first_occurrences(places));
    }
    let ghost step = under(env.exe_dir, seq!["resources"@, "platform-tools"@, nm], w);
    push_under(&mut candidates, &env.exe_dir, &resources, w);
    proof {
        lemma_first_occurrences_append(seq![], places, step);
        places = places + step;
        lemma_first_occurrences_empty(places);
        assert(texts(candidates@) == first_occurrences(places));
    }
    let ghost step = match env.exe_dir {
        Some(_) => under(env.exe_parent, seq!["Resources"@, "platform-tools"@, nm], w),
        None => seq![],
    };
    if env.exe_dir.is_some() {
        push_under(&mut candidates, &env.exe_parent, &bundle, w);
    }
    proof {
        lemma_first_occurrences_append(seq![], places, step);
        places = places + step;
        lemma_first_occurrences_empty(places);
        assert(places =~= candidate_places(*env));
    }
    candidates
}

/// Whether `adb version` answered as the Android Debug Bridge: it exited
/// successfully and named itself on its standard output or error.
pub open spec fn answers_as_adb(success: bool, stdout: Seq<char>, stderr: Seq<char>) -> bool {
    success && (contains_text(stdout, "Android Debug Bridge"@) || contains_text(stderr, "Android Debug Bridge"@))
}

/// Whether the output of `adb version` shows the program to be `adb`.
pub fn probe_output_is_adb(success: bool, stdout: &str, stderr: &str) -> (b: bool)
    ensures
        b == answers_as_adb(success, stdout@, stderr@),
{
    if !success {
        return false;
    }
    let out = chars_of(stdout);
    let err = chars_of(stderr);
    contains_str(out.as_slice(), "Android Debug Bridge") || contains_str(err.as_slice(), "Android Debug Bridge")
}

} // verus!
