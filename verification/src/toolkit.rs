//! Locating build-time packages and the CUDA toolkit, given what the file system
//! holds.
use vstd::prelude::*;
use vstd::string::*;
use crate::paths::{file_name, file_name_of, join_path, joined, parent_of, parent_path};
use crate::text::same_text;

verus! {

/// What the file system says of one path.
pub struct PathFact {
    pub path: String,
    pub is_file: bool,
    pub is_dir: bool,
    /// The path without links, where it could be resolved.
    pub canonical: Option<String>,
}

/// What is known of the file system. A path without a fact does not exist.
pub struct FileFacts {
    pub entries: Vec<PathFact>,
}

/// The first fact about a path.
pub open spec fn fact_in(entries: Seq<PathFact>, path: Seq<char>) -> Option<PathFact>
    decreases entries.len(),
{
    if entries.len() == 0 {
        None
    } else {
        match fact_in(entries.drop_last(), path) {
            Some(fact) => Some(fact),
            None => if entries.last().path@ == path {
                Some(entries.last())
            } else {
                None
            },
        }
    }
}

proof fn lemma_fact_prefix(entries: Seq<PathFact>, path: Seq<char>, n: int)
    requires
        0 <= n <= entries.len(),
        fact_in(entries.take(n), path) is Some,
    ensures
        fact_in(entries, path) == fact_in(entries.take(n), path),
    decreases entries.len() - n,
{
    if n == entries.len() {
        assert(entries.take(n) =~= entries);
    } else {
        assert(entries.take(n + 1).drop_last() =~= entries.take(n));
        lemma_fact_prefix(entries, path, n + 1);
    }
}

impl FileFacts {
    pub open spec fn fact(self, path: Seq<char>) -> Option<PathFact> {
        fact_in(self.entries@, path)
    }

    pub open spec fn file(self, path: Seq<char>) -> bool {
        self.fact(path) matches Some(fact) && fact.is_file
    }

    pub open spec fn dir(self, path: Seq<char>) -> bool {
        self.fact(path) matches Some(fact) && fact.is_dir
    }

    /// The path without links, or the path itself where that is not known.
    pub open spec fn resolved(self, path: Seq<char>) -> Seq<char> {
        match self.fact(path) {
            Some(fact) => match fact.canonical {
                Some(canonical) => canonical@,
                None => path,
            },
            None => path,
        }
    }

    fn find(&self, path: &str) -> (r: Option<&PathFact>)
        ensures
            match self.fact(path@) {
                Some(fact) => r == Some(&fact),
                None => r is None,
            },
    {
        let mut i: usize = 0;
        assert(self.entries@.take(0) =~= Seq::<PathFact>::empty());
        while i < self.entries.len()
            invariant
                i <= self.entries.len(),
                fact_in(self.entries@.take(i as int), path@) is None,
            decreases self.entries.len() - i,
        {
            proof {
                assert(self.entries@.take(i as int + 1).drop_last() =~= self.entries@.take(
                    i as int,
                ));
                if fact_in(self.entries@.take(i as int + 1), path@) is Some {
                    lemma_fact_prefix(self.entries@, path@, i as int + 1);
                }
            }
            if same_text(self.entries[i].path.as_str(), path) {
                return Some(&self.entries[i]);
            }
            i = i + 1;
        }
        assert(self.entries@.take(i as int) =~= self.entries@);
        None
    }

    pub fn is_file(&self, path: &str) -> (r: bool)
        ensures
            r == self.file(path@),
    {
        match self.find(path) {
            Some(fact) => fact.is_file,
            None => false,
        }
    }

    pub fn is_dir(&self, path: &str) -> (r: bool)
        ensures
            r == self.dir(path@),
    {
        match self.find(path) {
            Some(fact) => fact.is_dir,
            None => false,
        }
    }

    fn resolve(&self, path: &str) -> (r: String)
        ensures
            r@ == self.resolved(path@),
    {
        if let Some(fact) = self.find(path) {
            if let Some(canonical) = &fact.canonical {
                return String::from_str(canonical.as_str());
            }
        }
        String::from_str(path)
    }
}

/// The texts of a list.
pub open spec fn texts(list: Seq<String>) -> Seq<Seq<char>> {
    list.map_values(|s: String| s@)
}

/// Every place a package may be: each root with each file to look for.
pub open spec fn package_found(
    facts: FileFacts,
    roots: Seq<Seq<char>>,
    checks: Seq<Seq<char>>,
    i: int,
    j: int,
) -> bool {
    &&& 0 <= i < roots.len()
    &&& 0 <= j < checks.len()
    &&& facts.file(joined(roots[i], checks[j]))
}

/// No place before root `i`, file `j` holds the package.
pub open spec fn none_before(
    facts: FileFacts,
    roots: Seq<Seq<char>>,
    checks: Seq<Seq<char>>,
    i: int,
    j: int,
) -> bool {
    forall|a: int, b: int|
        #![trigger package_found(facts, roots, checks, a, b)]
        (a < i || (a == i && b < j)) ==> !package_found(facts, roots, checks, a, b)
}

/// Where a package was found.
pub struct FoundPackage {
    pub root: String,
    pub file: String,
    /// The place in the list of roots.
    pub root_index: usize,
    /// The place in the list of files.
    pub check_index: usize,
}

/// Looks for a package: in each root in turn, for each of the files that mark an
/// install.
pub fn find_package(roots: &Vec<String>, check_files: &Vec<String>, facts: &FileFacts) -> (r:
    Option<FoundPackage>)
    ensures
        match r {
            Some(found) => {
                let (i, j) = (found.root_index as int, found.check_index as int);
                &&& package_found(*facts, texts(roots@), texts(check_files@), i, j)
                &&& none_before(*facts, texts(roots@), texts(check_files@), i, j)
                &&& found.root@ == texts(roots@)[i]
                &&& found.file@ == joined(found.root@, texts(check_files@)[j])
            },
            None => none_before(
                *facts,
                texts(roots@),
                texts(check_files@),
                roots@.len() as int,
                0,
            ),
        },
{
    let ghost rs = texts(roots@);
    let ghost cs = texts(check_files@);
    let mut i: usize = 0;
    while i < roots.len()
        invariant
            i <= roots.len(),
            rs == texts(roots@),
            cs == texts(check_files@),
            none_before(*facts, rs, cs, i as int, 0),
        decreases roots.len() - i,
    {
        let mut j: usize = 0;
        while j < check_files.len()
            invariant
                i < roots.len(),
                j <= check_files.len(),
                rs == texts(roots@),
                cs == texts(check_files@),
                none_before(*facts, rs, cs, i as int, j as int),
            decreases check_files.len() - j,
        {
            let found = join_path(roots[i].as_str(), check_files[j].as_str());
            assert(rs[i as int] == roots@[i as int]@);
            assert(cs[j as int] == check_files@[j as int]@);
            if facts.is_file(found.as_str()) {
                let root = String::from_str(roots[i].as_str());
                assert(root@ == texts(roots@)[i as int]);
                assert(found@ == joined(root@, texts(check_files@)[j as int]));
                assert(package_found(
                    *facts,
                    texts(roots@),
                    texts(check_files@),
                    i as int,
                    j as int,
                ));
                return Some(FoundPackage { root, file: found, root_index: i, check_index: j });
            }
            assert(!package_found(*facts, rs, cs, i as int, j as int));
            j = j + 1;
        }
        i = i + 1;
    }
    None
}

/// The `targets` directories of an architecture; one architecture has two names.
pub open spec fn target_names(arch: Seq<char>) -> Seq<Seq<char>> {
    if arch == "aarch64"@ {
        seq!["aarch64-linux"@, "sbsa-linux"@]
    } else {
        seq![arch + "-linux"@]
    }
}

pub fn target_dirs(arch: &str) -> (r: Vec<String>)
    ensures
        texts(r@) == target_names(arch@),
{
    let mut dirs: Vec<String> = Vec::new();
    if same_text(arch, "aarch64") {
        dirs.push(String::from_str("aarch64-linux"));
        dirs.push(String::from_str("sbsa-linux"));
        assert(texts(dirs@) =~= target_names(arch@));
    } else {
        let mut name = String::from_str(arch);
        name.append("-linux");
        dirs.push(name);
        assert(texts(dirs@) =~= target_names(arch@));
    }
    dirs
}

/// A build-time CUDA toolkit, in any of the layouts it ships in.
pub struct CudaToolkit {
    pub root: String,
    /// The compiler below the root when it is there, else found by name.
    pub nvcc: String,
    pub include_dirs: Vec<String>,
    pub lib_dirs: Vec<String>,
}

/// Directories below `targets`, with the same last part.
pub open spec fn target_paths(
    root: Seq<char>,
    targets: Seq<Seq<char>>,
    tail: Seq<char>,
) -> Seq<Seq<char>> {
    targets.map_values(|t: Seq<char>| joined(root, "targets/"@ + t + tail))
}

/// Where headers may be.
pub open spec fn header_candidates(root: Seq<char>, arch: Seq<char>) -> Seq<Seq<char>> {
    seq![joined(root, "include"@)] + target_paths(root, target_names(arch), "/include"@)
}

/// Where libraries may be: below the root, below its targets, and, in the layout
/// that keeps the math libraries beside the toolkit, in that sibling tree.
pub open spec fn lib_candidates(root: Seq<char>, arch: Seq<char>) -> Seq<Seq<char>> {
    seq![joined(root, "lib64"@), joined(root, "lib"@)] + target_paths(
        root,
        target_names(arch),
        "/lib"@,
    ) + math_candidates(root)
}

pub open spec fn math_candidates(root: Seq<char>) -> Seq<Seq<char>> {
    match (file_name_of(root), parent_of(root)) {
        (Some(version), Some(parent)) => match parent_of(parent) {
            Some(release) => {
                let math = joined(joined(release, "math_libs"@), version);
                seq![joined(math, "lib64"@), joined(math, "lib"@)]
            },
            None => Seq::empty(),
        },
        _ => Seq::empty(),
    }
}

/// The directories that exist, each once: a link to one that was kept is dropped.
pub open spec fn kept(facts: FileFacts, dirs: Seq<Seq<char>>) -> Seq<Seq<char>>
    decreases dirs.len(),
{
    if dirs.len() == 0 {
        Seq::empty()
    } else {
        let before = kept(facts, dirs.drop_last());
        let dir = dirs.last();
        if !facts.dir(dir) || resolved_all(facts, before).contains(facts.resolved(dir)) {
            before
        } else {
            before.push(dir)
        }
    }
}

pub open spec fn resolved_all(facts: FileFacts, dirs: Seq<Seq<char>>) -> Seq<Seq<char>> {
    dirs.map_values(|d: Seq<char>| facts.resolved(d))
}

fn contains_text(list: &Vec<String>, text: &str) -> (r: bool)
    ensures
        r == texts(list@).contains(text@),
{
    let mut i: usize = 0;
    while i < list.len()
        invariant
            i <= list.len(),
            forall|k: int| 0 <= k < i ==> (#[trigger] texts(list@)[k]) != text@,
        decreases list.len() - i,
    {
        assert(texts(list@)[i as int] == list@[i as int]@);
        if same_text(list[i].as_str(), text) {
            assert(texts(list@).contains(text@));
            return true;
        }
        i = i + 1;
    }
    false
}

pub fn existing_deduped(dirs: Vec<String>, facts: &FileFacts) -> (r: Vec<String>)
    ensures
        texts(r@) == kept(*facts, texts(dirs@)),
{
    let ghost all = dirs@;
    let mut seen: Vec<String> = Vec::new();
    let mut out: Vec<String> = Vec::new();
    proof {
        assert(texts(all).take(0) =~= Seq::<Seq<char>>::empty());
        assert(texts(out@) =~= Seq::<Seq<char>>::empty());
        assert(texts(seen@) =~= resolved_all(*facts, Seq::<Seq<char>>::empty()));
    }
    for dir in it: dirs
        invariant
            it.seq() == all,
            texts(out@) == kept(*facts, texts(all).take(it.index() as int)),
            texts(seen@) == resolved_all(*facts, texts(out@)),
    {
        let ghost before_out = out@;
        let ghost before_seen = seen@;
        let ghost text = dir@;
        proof {
            let next = texts(all).take(it.index() as int + 1);
            assert(next.drop_last() =~= texts(all).take(it.index() as int));
            assert(next.last() == dir@);
        }
        if facts.is_dir(dir.as_str()) {
            let canonical = facts.resolve(dir.as_str());
            if !contains_text(&seen, canonical.as_str()) {
                seen.push(canonical);
                out.push(dir);
                proof {
                    assert(texts(out@) =~= texts(before_out).push(text));
                    assert(texts(seen@) =~= texts(before_seen).push(facts.resolved(text)));
                    assert(resolved_all(*facts, texts(before_out).push(text)) =~= resolved_all(
                        *facts,
                        texts(before_out),
                    ).push(facts.resolved(text)));
                }
            }
        }
    }
    assert(texts(all).take(all.len() as int) =~= texts(all));
    out
}

fn push_targets(out: &mut Vec<String>, root: &str, targets: &Vec<String>, tail: &str)
    ensures
        texts(final(out)@) == texts(old(out)@) + target_paths(root@, texts(targets@), tail@),
{
    let ghost before = texts(out@);
    let ghost names = texts(targets@);
    let mut i: usize = 0;
    assert(before + target_paths(root@, names.take(0), tail@) =~= before);
    while i < targets.len()
        invariant
            i <= targets.len(),
            names == texts(targets@),
            texts(out@) == before + target_paths(root@, names.take(i as int), tail@),
        decreases targets.len() - i,
    {
        let ghost earlier = out@;
        let mut name = String::from_str("targets/");
        name.append(targets[i].as_str());
        name.append(tail);
        let path = join_path(root, name.as_str());
        out.push(path);
        proof {
            assert(names.take(i as int + 1) =~= names.take(i as int).push(names[i as int]));
            assert(texts(out@) =~= texts(earlier).push(path@));
            assert(target_paths(root@, names.take(i as int + 1), tail@) =~= target_paths(
                root@,
                names.take(i as int),
                tail@,
            ).push(path@));
        }
        i = i + 1;
    }
    assert(names.take(i as int) =~= names);
}

/// Where headers may be.
pub fn header_candidate_dirs(root: &str, arch: &str) -> (r: Vec<String>)
    ensures
        texts(r@) == header_candidates(root@, arch@),
{
    let targets = target_dirs(arch);
    let mut dirs: Vec<String> = Vec::new();
    dirs.push(join_path(root, "include"));
    assert(texts(dirs@) =~= seq![joined(root@, "include"@)]);
    push_targets(&mut dirs, root, &targets, "/include");
    dirs
}

/// Where libraries may be.
pub fn lib_candidate_dirs(root: &str, arch: &str) -> (r: Vec<String>)
    ensures
        texts(r@) == lib_candidates(root@, arch@),
{
    let targets = target_dirs(arch);
    let mut dirs: Vec<String> = Vec::new();
    dirs.push(join_path(root, "lib64"));
    dirs.push(join_path(root, "lib"));
    assert(texts(dirs@) =~= seq![joined(root@, "lib64"@), joined(root@, "lib"@)]);
    push_targets(&mut dirs, root, &targets, "/lib");
    let ghost before = texts(dirs@);
    assert(before + Seq::<Seq<char>>::empty() =~= before);
    if let Some(version) = file_name(root) {
        if let Some(parent) = parent_path(root) {
            if let Some(release) = parent_path(parent.as_str()) {
                let base = join_path(release.as_str(), "math_libs");
                let math = join_path(base.as_str(), version.as_str());
                dirs.push(join_path(math.as_str(), "lib64"));
                dirs.push(join_path(math.as_str(), "lib"));
                assert(texts(dirs@) =~= before + seq![
                    joined(math@, "lib64"@),
                    joined(math@, "lib"@),
                ]);
            }
        }
    }
    dirs
}

impl CudaToolkit {
    /// The toolkit below a root.
    pub fn from_root(root: String, arch: &str, facts: &FileFacts) -> (r: Self)
        ensures
            r.root@ == root@,
            r.nvcc@ == (if facts.file(joined(root@, "bin/nvcc"@)) {
                joined(root@, "bin/nvcc"@)
            } else {
                "nvcc"@
            }),
            texts(r.include_dirs@) == kept(*facts, header_candidates(root@, arch@)),
            texts(r.lib_dirs@) == kept(*facts, lib_candidates(root@, arch@)),
    {
        let below = join_path(root.as_str(), "bin/nvcc");
        let nvcc = if facts.is_file(below.as_str()) {
            below
        } else {
            String::from_str("nvcc")
        };
        let include_dirs = existing_deduped(header_candidate_dirs(root.as_str(), arch), facts);
        let lib_dirs = existing_deduped(lib_candidate_dirs(root.as_str(), arch), facts);
        CudaToolkit { root, nvcc, include_dirs, lib_dirs }
    }

    /// The header directory that actually holds a header.
    pub fn header_dir(&self, header: &str, facts: &FileFacts) -> (r: Option<String>)
        ensures
            match r {
                Some(dir) => exists|i: int|
                    0 <= i < self.include_dirs@.len() && dir@ == (
                    #[trigger] self.include_dirs@[i])@ && facts.file(joined(dir@, header@))
                        && forall|k: int|
                        0 <= k < i ==> !facts.file(
                            joined((#[trigger] self.include_dirs@[k])@, header@),
                        ),
                None => forall|k: int|
                    0 <= k < self.include_dirs@.len() ==> !facts.file(
                        joined((#[trigger] self.include_dirs@[k])@, header@),
                    ),
            },
    {
        let mut i: usize = 0;
        while i < self.include_dirs.len()
            invariant
                i <= self.include_dirs.len(),
                forall|k: int|
                    0 <= k < i ==> !facts.file(
                        joined((#[trigger] self.include_dirs@[k])@, header@),
                    ),
            decreases self.include_dirs.len() - i,
        {
            let path = join_path(self.include_dirs[i].as_str(), header);
            if facts.is_file(path.as_str()) {
                let dir = String::from_str(self.include_dirs[i].as_str());
                assert(dir@ == self.include_dirs@[i as int]@);
                return Some(dir);
            }
            i = i + 1;
        }
        None
    }

    /// The lines that tell the build where to look for libraries: a warning when
    /// there is nowhere.
    pub fn link_search(&self) -> (lines: Vec<String>)
        ensures
            texts(lines@) == search_lines(
                "cargo:warning=no CUDA library dir found under "@,
                self.root@,
                texts(self.lib_dirs@),
            ),
    {
        search_list(
            "cargo:warning=no CUDA library dir found under ",
            self.root.as_str(),
            &self.lib_dirs,
        )
    }

    /// The lines for the stub libraries, which link without a driver.
    pub fn link_search_stubs(&self, facts: &FileFacts) -> (lines: Vec<String>)
        ensures
            texts(lines@) == search_lines(
                "cargo:warning=no CUDA stub dir found under "@,
                self.root@,
                stub_dirs(*facts, texts(self.lib_dirs@)),
            ),
    {
        let ghost all = texts(self.lib_dirs@);
        let mut dirs: Vec<String> = Vec::new();
        let mut i: usize = 0;
        assert(all.take(0) =~= Seq::<Seq<char>>::empty());
        assert(texts(dirs@) =~= Seq::<Seq<char>>::empty());
        while i < self.lib_dirs.len()
            invariant
                i <= self.lib_dirs.len(),
                all == texts(self.lib_dirs@),
                texts(dirs@) == stub_dirs(*facts, all.take(i as int)),
            decreases self.lib_dirs.len() - i,
        {
            let ghost earlier = dirs@;
            assert(all.take(i as int + 1).drop_last() =~= all.take(i as int));
            let stub = join_path(self.lib_dirs[i].as_str(), "stubs");
            if facts.is_dir(stub.as_str()) {
                dirs.push(stub);
                assert(texts(dirs@) =~= texts(earlier).push(stub@));
            }
            i = i + 1;
        }
        assert(all.take(i as int) =~= all);
        search_list("cargo:warning=no CUDA stub dir found under ", self.root.as_str(), &dirs)
    }
}

/// The stub directories that exist.
pub open spec fn stub_dirs(facts: FileFacts, dirs: Seq<Seq<char>>) -> Seq<Seq<char>>
    decreases dirs.len(),
{
    if dirs.len() == 0 {
        Seq::empty()
    } else {
        let before = stub_dirs(facts, dirs.drop_last());
        let stub = joined(dirs.last(), "stubs"@);
        if facts.dir(stub) {
            before.push(stub)
        } else {
            before
        }
    }
}

pub open spec fn search_lines(
    warning: Seq<char>,
    root: Seq<char>,
    dirs: Seq<Seq<char>>,
) -> Seq<Seq<char>> {
    if dirs.len() == 0 {
        seq![warning + root]
    } else {
        dirs.map_values(|d: Seq<char>| "cargo:rustc-link-search=native="@ + d)
    }
}

fn search_list(warning: &str, root: &str, dirs: &Vec<String>) -> (lines: Vec<String>)
    ensures
        texts(lines@) == search_lines(warning@, root@, texts(dirs@)),
{
    let mut lines: Vec<String> = Vec::new();
    if dirs.is_empty() {
        let mut line = String::from_str(warning);
        line.append(root);
        lines.push(line);
        assert(texts(lines@) =~= seq![warning@ + root@]);
        return lines;
    }
    let mut i: usize = 0;
    while i < dirs.len()
        invariant
            i <= dirs.len(),
            lines@.len() == i,
            forall|k: int|
                0 <= k < i ==> (#[trigger] lines@[k])@ == "cargo:rustc-link-search=native="@
                    + dirs@[k]@,
        decreases dirs.len() - i,
    {
        let mut line = String::from_str("cargo:rustc-link-search=native=");
        line.append(dirs[i].as_str());
        lines.push(line);
        i = i + 1;
    }
    assert(texts(lines@) =~= search_lines(warning@, root@, texts(dirs@)));
    lines
}

/// Every directory that is kept exists, and no two of them are the same place.
pub proof fn lemma_kept_dirs_exist_once(facts: FileFacts, dirs: Seq<Seq<char>>)
    ensures
        forall|i: int|
            0 <= i < kept(facts, dirs).len() ==> facts.dir(#[trigger] kept(facts, dirs)[i]),
        forall|i: int, j: int|
            0 <= i < j < kept(facts, dirs).len() ==> facts.resolved(
                #[trigger] kept(facts, dirs)[i],
            ) != facts.resolved(#[trigger] kept(facts, dirs)[j]),
    decreases dirs.len(),
{
    if dirs.len() > 0 {
        let before = kept(facts, dirs.drop_last());
        let now = kept(facts, dirs);
        lemma_kept_dirs_exist_once(facts, dirs.drop_last());
        if now.len() > before.len() {
            assert forall|i: int| 0 <= i < now.len() implies facts.dir(#[trigger] now[i]) by {
                if i < before.len() {
                    assert(now[i] == before[i]);
                }
            }
            assert forall|i: int, j: int| 0 <= i < j < now.len() implies facts.resolved(
                #[trigger] now[i],
            ) != facts.resolved(#[trigger] now[j]) by {
                assert(now[i] == before[i]);
                if j < before.len() {
                    assert(now[j] == before[j]);
                } else {
                    assert(resolved_all(facts, before)[i] == facts.resolved(before[i]));
                }
            }
        }
    }
}

/// A directory that exists is kept itself, or stands for a place that was kept
/// before it.
pub proof fn lemma_every_existing_dir_is_covered(facts: FileFacts, dirs: Seq<Seq<char>>, i: int)
    requires
        0 <= i < dirs.len(),
        facts.dir(dirs[i]),
    ensures
        resolved_all(facts, kept(facts, dirs)).contains(facts.resolved(dirs[i])),
    decreases dirs.len(),
{
    let before = kept(facts, dirs.drop_last());
    let now = kept(facts, dirs);
    let target = facts.resolved(dirs[i]);
    if i < dirs.len() - 1 {
        lemma_every_existing_dir_is_covered(facts, dirs.drop_last(), i);
        let all = resolved_all(facts, before);
        let k = all.index_of(target);
        assert(now[k] == before[k]);
        assert(resolved_all(facts, now)[k] == target);
    } else if now.len() > before.len() {
        assert(resolved_all(facts, now)[before.len() as int] == target);
    }
}

/// The root from the environment, where it is set.
pub open spec fn env_texts(env_root: Option<String>) -> Seq<Seq<char>> {
    match env_root {
        Some(root) => seq![root@],
        None => Seq::empty(),
    }
}

/// The roots to look in: the one from the environment first, where it is set.
pub fn package_roots(env_root: Option<String>, defaults: &Vec<String>) -> (roots: Vec<String>)
    ensures
        texts(roots@) == env_texts(env_root) + texts(defaults@),
{
    let mut roots: Vec<String> = Vec::new();
    let ghost first = env_texts(env_root);
    if let Some(root) = env_root {
        roots.push(root);
    }
    assert(texts(roots@) =~= first + texts(defaults@.take(0)));
    let mut i: usize = 0;
    while i < defaults.len()
        invariant
            i <= defaults.len(),
            texts(roots@) == first + texts(defaults@.take(i as int)),
        decreases defaults.len() - i,
    {
        let ghost earlier = roots@;
        let root = String::from_str(defaults[i].as_str());
        roots.push(root);
        assert(texts(roots@) =~= texts(earlier).push(root@));
        assert(texts(defaults@.take(i as int + 1)) =~= texts(defaults@.take(i as int)).push(
            defaults@[i as int]@,
        ));
        assert(texts(roots@) =~= first + texts(defaults@.take(i as int + 1)));
        i = i + 1;
    }
    assert(defaults@.take(i as int) =~= defaults@);
    roots
}

/// Whether a root from the environment was passed over for a default one.
pub fn env_root_passed_over(env_set: bool, found: &FoundPackage) -> (r: bool)
    ensures
        r == (env_set && found.root_index > 0),
{
    env_set && found.root_index > 0
}

/// Where the toolkit is: what the environment says, else the usual place.
pub fn cuda_root(cuda_home: Option<String>, cuda_path: Option<String>) -> (r: (String, bool))
    ensures
        r.0@ == (match (cuda_home, cuda_path) {
            (Some(home), _) => home@,
            (None, Some(path)) => path@,
            (None, None) => "/usr/local/cuda"@,
        }),
        r.1 == (cuda_home is Some || cuda_path is Some),
{
    match cuda_home {
        Some(home) => (home, true),
        None => match cuda_path {
            Some(path) => (path, true),
            None => (String::from_str("/usr/local/cuda"), false),
        },
    }
}

/// A warning about a root from the environment that is no directory.
pub fn cuda_root_warning(root: &str, from_env: bool, facts: &FileFacts) -> (r: Option<String>)
    ensures
        match r {
            Some(line) => {
                &&& from_env && !facts.dir(root@)
                &&& line@ == "cargo:warning=CUDA root "@ + root@
                    + " (from CUDA_HOME/CUDA_PATH) is not a directory"@
            },
            None => !from_env || facts.dir(root@),
        },
{
    if from_env && !facts.is_dir(root) {
        let mut line = String::from_str("cargo:warning=CUDA root ");
        line.append(root);
        line.append(" (from CUDA_HOME/CUDA_PATH) is not a directory");
        Some(line)
    } else {
        None
    }
}

/// What follows the last dot of a text.
pub open spec fn after_last_dot(text: Seq<char>) -> Seq<char>
    decreases text.len(),
{
    if text.len() == 0 || text.last() == '.' {
        Seq::empty()
    } else {
        after_last_dot(text.drop_last()).push(text.last())
    }
}

/// The extension of a path: what follows the last dot of its file name. A dot in
/// front of the name starts no extension.
pub open spec fn extension_of(path: Seq<char>) -> Option<Seq<char>> {
    match file_name_of(path) {
        Some(name) => {
            let tail = after_last_dot(name);
            if tail.len() + 1 < name.len() {
                Some(tail)
            } else {
                None
            }
        },
        None => None,
    }
}

proof fn lemma_after_last_dot(text: Seq<char>, k: int)
    requires
        0 <= k <= text.len(),
        k > 0 ==> text[k - 1] == '.',
        forall|i: int| k <= i < text.len() ==> text[i] != '.',
    ensures
        after_last_dot(text) == text.skip(k),
    decreases text.len(),
{
    if text.len() > k {
        let head = text.drop_last();
        lemma_after_last_dot(head, k);
        assert(head.skip(k).push(text.last()) =~= text.skip(k));
    } else {
        assert(text.skip(k) =~= Seq::<char>::empty());
    }
}

pub fn extension(path: &str) -> (r: Option<String>)
    ensures
        match r {
            Some(ext) => extension_of(path@) == Some(ext@),
            None => extension_of(path@) is None,
        },
{
    let name = match file_name(path) {
        Some(name) => name,
        None => {
            return None;
        },
    };
    let text = name.as_str();
    let len: usize = text.unicode_len();
    let mut k: usize = len;
    while k > 0 && text.get_char(k - 1) != '.'
        invariant
            len == text@.len(),
            k <= len,
            forall|i: int| k <= i < len ==> text@[i] != '.',
        decreases k,
    {
        k = k - 1;
    }
    proof {
        lemma_after_last_dot(text@, k as int);
    }
    if k > 1 {
        let tail = text.substring_char(k, len);
        assert(tail@ =~= text@.skip(k as int));
        Some(String::from_str(tail))
    } else {
        None
    }
}

/// The line that has a build run again when a file changes, for a file with one of
/// the extensions.
pub fn rerun_line(path: &str, extensions: &Vec<String>) -> (r: Option<String>)
    ensures
        match r {
            Some(line) => {
                &&& extension_of(path@) matches Some(ext)
                &&& texts(extensions@).contains(ext)
                &&& line@ == "cargo:rerun-if-changed="@ + path@
            },
            None => match extension_of(path@) {
                Some(ext) => !texts(extensions@).contains(ext),
                None => true,
            },
        },
{
    match extension(path) {
        Some(ext) => if contains_text(extensions, ext.as_str()) {
            let mut line = String::from_str("cargo:rerun-if-changed=");
            line.append(path);
            Some(line)
        } else {
            None
        },
        None => None,
    }
}

/// The header of the driver interface, or why it is not there.
pub fn cuda_header(toolkit: &CudaToolkit, facts: &FileFacts) -> (r: Result<String, String>)
    ensures
        match r {
            Ok(path) => exists|i: int|
                0 <= i < toolkit.include_dirs@.len() && path@ == joined(
                    (#[trigger] toolkit.include_dirs@[i])@,
                    "cuda.h"@,
                ) && facts.file(path@) && forall|k: int|
                    0 <= k < i ==> !facts.file(
                        joined((#[trigger] toolkit.include_dirs@[k])@, "cuda.h"@),
                    ),
            Err(message) => {
                &&& forall|k: int|
                    0 <= k < toolkit.include_dirs@.len() ==> !facts.file(
                        joined((#[trigger] toolkit.include_dirs@[k])@, "cuda.h"@),
                    )
                &&& message@ == "cuda-sys build error: cuda.h not found under "@ + toolkit.root@
                    + ". Hint: install the CUDA SDK and/or set CUDA_HOME to its install root."@
            },
        },
{
    match toolkit.header_dir("cuda.h", facts) {
        Some(dir) => Ok(join_path(dir.as_str(), "cuda.h")),
        None => {
            let mut message = String::from_str("cuda-sys build error: cuda.h not found under ");
            message.append(toolkit.root.as_str());
            message.append(
                ". Hint: install the CUDA SDK and/or set CUDA_HOME to its install root.",
            );
            Err(message)
        },
    }
}

/// Where the profiling interface ships in installs that keep it apart: its header
/// and library directories, as far as they exist.
pub fn cupti_dirs(root: &str, facts: &FileFacts) -> (r: (Option<String>, Option<String>))
    ensures
        match r.0 {
            Some(dir) => dir@ == joined(root@, "extras/CUPTI/include"@) && facts.dir(dir@),
            None => !facts.dir(joined(root@, "extras/CUPTI/include"@)),
        },
        match r.1 {
            Some(dir) => dir@ == joined(root@, "extras/CUPTI/lib64"@) && facts.dir(dir@),
            None => !facts.dir(joined(root@, "extras/CUPTI/lib64"@)),
        },
{
    let headers = join_path(root, "extras/CUPTI/include");
    let libs = join_path(root, "extras/CUPTI/lib64");
    (
        if facts.is_dir(headers.as_str()) {
            Some(headers)
        } else {
            None
        },
        if facts.is_dir(libs.as_str()) {
            Some(libs)
        } else {
            None
        },
    )
}

/// What is known of a path is the first fact about it; a path is unknown exactly when no
/// fact is about it.
pub proof fn lemma_first_fact_counts(entries: Seq<PathFact>, path: Seq<char>, i: int)
    ensures
        fact_in(entries, path) is None <==> forall|k: int|
            0 <= k < entries.len() ==> (#[trigger] entries[k]).path@ != path,
        0 <= i < entries.len() && entries[i].path@ == path && (forall|k: int|
            0 <= k < i ==> (#[trigger] entries[k]).path@ != path) ==> fact_in(entries, path)
            == Some(entries[i]),
    decreases entries.len(),
{
    if entries.len() > 0 {
        let head = entries.drop_last();
        let n = entries.len() - 1;
        lemma_first_fact_counts(head, path, i);
        assert forall|k: int| 0 <= k < n implies head[k] == #[trigger] entries[k] by {}
        assert(entries[n] == entries.last());
        if fact_in(head, path) is Some {
            let k = choose|k: int| 0 <= k < head.len() && (#[trigger] head[k]).path@ == path;
            assert(entries[k].path@ == path);
        }
    }
}

/// Directories are kept in their order, and one that exists at a place that none before it
/// stands for is kept itself.
pub proof fn lemma_new_places_are_kept(facts: FileFacts, dirs: Seq<Seq<char>>, i: int)
    requires
        0 <= i < dirs.len(),
    ensures
        ({
            let before = kept(facts, dirs.take(i));
            let after = kept(facts, dirs.take(i + 1));
            let seen = exists|k: int|
                0 <= k < i && facts.dir(#[trigger] dirs[k]) && facts.resolved(dirs[k])
                    == facts.resolved(dirs[i]);
            &&& after == (if facts.dir(dirs[i]) && !seen {
                before.push(dirs[i])
            } else {
                before
            })
            &&& after.is_prefix_of(kept(facts, dirs))
        }),
    decreases dirs.len(),
{
    let first = dirs.take(i);
    let before = kept(facts, first);
    assert(dirs.take(i + 1).drop_last() =~= first);
    let target = facts.resolved(dirs[i]);
    if exists|k: int|
        0 <= k < i && facts.dir(#[trigger] dirs[k]) && facts.resolved(dirs[k]) == target {
        let k = choose|k: int|
            0 <= k < i && facts.dir(#[trigger] dirs[k]) && facts.resolved(dirs[k]) == target;
        assert(first[k] == dirs[k]);
        lemma_every_existing_dir_is_covered(facts, first, k);
    }
    if resolved_all(facts, before).contains(target) {
        let k = resolved_all(facts, before).index_of(target);
        lemma_kept_comes_from(facts, first, k);
        let j = choose|j: int|
            0 <= j < first.len() && #[trigger] first[j] == before[k] && facts.dir(first[j]);
        assert(dirs[j] == first[j]);
    }
    if i + 1 == dirs.len() {
        assert(dirs.take(i + 1) =~= dirs);
    } else {
        let shorter = dirs.drop_last();
        lemma_new_places_are_kept(facts, shorter, i);
        assert(shorter.take(i) =~= first);
        assert(shorter.take(i + 1) =~= dirs.take(i + 1));
    }
}

proof fn lemma_kept_comes_from(facts: FileFacts, dirs: Seq<Seq<char>>, k: int)
    requires
        0 <= k < kept(facts, dirs).len(),
    ensures
        exists|j: int|
            0 <= j < dirs.len() && #[trigger] dirs[j] == kept(facts, dirs)[k] && facts.dir(dirs[j]),
    decreases dirs.len(),
{
    let head = dirs.drop_last();
    let before = kept(facts, head);
    if k < before.len() {
        lemma_kept_comes_from(facts, head, k);
        let j = choose|j: int|
            0 <= j < head.len() && #[trigger] head[j] == before[k] && facts.dir(head[j]);
        assert(dirs[j] == head[j]);
    } else {
        assert(dirs[dirs.len() - 1] == kept(facts, dirs)[k]);
    }
}

/// The stub directories are those of the library directories that have one, in order.
pub proof fn lemma_stubs_that_exist_are_listed(facts: FileFacts, dirs: Seq<Seq<char>>, i: int)
    requires
        0 <= i < dirs.len(),
    ensures
        ({
            let stub = joined(dirs[i], "stubs"@);
            let before = stub_dirs(facts, dirs.take(i));
            let after = stub_dirs(facts, dirs.take(i + 1));
            &&& after == (if facts.dir(stub) {
                before.push(stub)
            } else {
                before
            })
            &&& after.is_prefix_of(stub_dirs(facts, dirs))
        }),
    decreases dirs.len(),
{
    assert(dirs.take(i + 1).drop_last() =~= dirs.take(i));
    if i + 1 == dirs.len() {
        assert(dirs.take(i + 1) =~= dirs);
    } else {
        let shorter = dirs.drop_last();
        lemma_stubs_that_exist_are_listed(facts, shorter, i);
        assert(shorter.take(i) =~= dirs.take(i));
        assert(shorter.take(i + 1) =~= dirs.take(i + 1));
    }
}

/// An extension has no dot in it, stands at the end of the file name behind a dot, and
/// leaves something of the name before that dot.
pub proof fn lemma_extension_follows_the_last_dot(path: Seq<char>)
    ensures
        extension_of(path) matches Some(ext) ==> (file_name_of(path) matches Some(name) && {
            let at = name.len() - ext.len();
            &&& at >= 2
            &&& name[at - 1] == '.'
            &&& name.skip(at) == ext
            &&& forall|i: int| 0 <= i < ext.len() ==> #[trigger] ext[i] != '.'
        }),
        extension_of(path) is None ==> (file_name_of(path) matches Some(name) ==> forall|i: int|
            1 <= i < name.len() ==> #[trigger] name[i] != '.'),
{
    if let Some(name) = file_name_of(path) {
        lemma_dot_split(name);
        let tail = after_last_dot(name);
        if extension_of(path) is None {
            assert forall|i: int| 1 <= i < name.len() implies #[trigger] name[i] != '.' by {
                let at = name.len() - tail.len();
                if i >= at {
                    assert(name.skip(at)[i - at] == tail[i - at]);
                }
            }
        }
    }
}

proof fn lemma_dot_split(text: Seq<char>)
    ensures
        ({
            let tail = after_last_dot(text);
            let at = text.len() - tail.len();
            &&& at >= 0
            &&& text.skip(at) == tail
            &&& at > 0 ==> text[at - 1] == '.'
            &&& forall|i: int| 0 <= i < tail.len() ==> #[trigger] tail[i] != '.'
        }),
    decreases text.len(),
{
    let tail = after_last_dot(text);
    if text.len() == 0 || text.last() == '.' {
        assert(text.skip(text.len() as int) =~= tail);
    } else {
        let head = text.drop_last();
        lemma_dot_split(head);
        let at = head.len() - after_last_dot(head).len();
        assert(text.skip(at) =~= head.skip(at).push(text.last()));
    }
}

/// Every line of a search names one directory, in order; without one there is a single
/// line, the warning.
pub proof fn lemma_search_names_every_directory(
    warning: Seq<char>,
    root: Seq<char>,
    dirs: Seq<Seq<char>>,
    i: int,
)
    ensures
        ({
            let lines = search_lines(warning, root, dirs);
            &&& dirs.len() > 0 ==> lines.len() == dirs.len()
            &&& dirs.len() == 0 ==> lines.len() == 1 && lines[0] == warning + root
            &&& 0 <= i < dirs.len() ==> lines[i] == "cargo:rustc-link-search=native="@ + dirs[i]
        }),
{
}

/// A package is found exactly when one of the roots has one of its files. The earliest
/// root that has one counts, and of its files the earliest.
pub proof fn lemma_earliest_package_counts(
    roots: Vec<String>,
    check_files: Vec<String>,
    facts: FileFacts,
    r: Option<FoundPackage>,
    i: int,
    j: int,
)
    requires
        call_ensures(find_package, (&roots, &check_files, &facts), r),
        0 <= i < roots@.len(),
        0 <= j < check_files@.len(),
        facts.file(joined(roots@[i]@, check_files@[j]@)),
    ensures
        r is Some,
        r matches Some(found) ==> {
            &&& found.root_index < i || (found.root_index == i && found.check_index <= j)
            &&& found.root_index < roots@.len() && found.check_index < check_files@.len()
            &&& found.root@ == roots@[found.root_index as int]@
            &&& found.file@ == joined(found.root@, check_files@[found.check_index as int]@)
            &&& facts.file(found.file@)
        },
{
    assert(package_found(facts, texts(roots@), texts(check_files@), i, j));
}

} // verus!
