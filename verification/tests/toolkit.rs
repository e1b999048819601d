use openinfer::paths::{file_name, join_path, parent_path};
use openinfer::toolkit::{
    cuda_header, cuda_root, cuda_root_warning, cupti_dirs, env_root_passed_over, extension,
    find_package, package_roots, rerun_line, target_dirs, CudaToolkit, FileFacts, PathFact,
};

const ROOT: &str = "/tmp/tree";
const ARCH: &str = "x86_64";
const TARGET: &str = "x86_64-linux";

/// A tree of files and directories, with the parents of each.
struct Tree {
    entries: Vec<PathFact>,
}

impl Tree {
    fn new() -> Self {
        Tree { entries: Vec::new() }
    }

    fn add(&mut self, path: String, is_file: bool, canonical: Option<String>) {
        if self.entries.iter().all(|fact| fact.path != path) {
            let canonical = canonical.or_else(|| Some(path.clone()));
            self.entries.push(PathFact { path, is_file, is_dir: !is_file, canonical });
        }
    }

    fn mkdirs(&mut self, rel: &str) -> String {
        let mut path = ROOT.to_string();
        self.add(path.clone(), false, None);
        for part in rel.split('/') {
            path = format!("{path}/{part}");
            self.add(path.clone(), false, None);
        }
        path
    }

    fn touch(&mut self, rel: &str) {
        let (dir, _) = rel.rsplit_once('/').expect("a file below a directory");
        self.mkdirs(dir);
        self.add(format!("{ROOT}/{rel}"), true, None);
    }

    /// A link to a directory; what lies below the target lies below the link too.
    fn link(&mut self, target: &str, name: &str) {
        let target = format!("{ROOT}/{target}");
        let name = format!("{ROOT}/{name}");
        let below: Vec<(String, bool)> = self
            .entries
            .iter()
            .filter(|fact| fact.path.starts_with(&format!("{target}/")))
            .map(|fact| (fact.path.replace(&target, &name), fact.is_file))
            .collect();
        self.add(name, false, Some(target));
        for (path, is_file) in below {
            self.add(path, is_file, None);
        }
    }

    fn facts(self) -> FileFacts {
        FileFacts { entries: self.entries }
    }
}

#[test]
fn classic_layout() {
    let mut tree = Tree::new();
    tree.touch("include/cuda.h");
    tree.touch("bin/nvcc");
    let lib64 = tree.mkdirs("lib64");
    tree.mkdirs("lib64/stubs");
    let facts = tree.facts();

    let tk = CudaToolkit::from_root(ROOT.to_string(), ARCH, &facts);
    assert_eq!(tk.nvcc, join_path(ROOT, "bin/nvcc"));
    assert_eq!(tk.header_dir("cuda.h", &facts), Some(join_path(ROOT, "include")));
    assert_eq!(tk.lib_dirs, vec![lib64.clone()]);
    assert!(facts.is_dir(&join_path(&lib64, "stubs")));
    assert_eq!(
        tk.link_search(),
        vec![format!("cargo:rustc-link-search=native={lib64}")]
    );
    assert_eq!(
        tk.link_search_stubs(&facts),
        vec![format!("cargo:rustc-link-search=native={lib64}/stubs")]
    );
    assert_eq!(cuda_header(&tk, &facts), Ok(format!("{ROOT}/include/cuda.h")));
}

#[test]
fn conda_layout() {
    let mut tree = Tree::new();
    tree.mkdirs("include");
    tree.touch(&format!("targets/{TARGET}/include/cuda.h"));
    let lib = tree.mkdirs("lib");
    let targets_lib = tree.mkdirs(&format!("targets/{TARGET}/lib"));
    let facts = tree.facts();

    let tk = CudaToolkit::from_root(ROOT.to_string(), ARCH, &facts);
    assert_eq!(tk.nvcc, "nvcc");
    assert_eq!(
        tk.header_dir("cuda.h", &facts),
        Some(join_path(ROOT, &format!("targets/{TARGET}/include")))
    );
    assert_eq!(tk.lib_dirs, vec![lib, targets_lib]);
}

#[test]
fn hpc_sdk_layout_adds_math_libs_sibling() {
    let mut tree = Tree::new();
    let root = tree.mkdirs("release/cuda/12.6");
    let lib64 = tree.mkdirs("release/cuda/12.6/lib64");
    let math = tree.mkdirs("release/math_libs/12.6/lib64");
    let facts = tree.facts();

    assert_eq!(CudaToolkit::from_root(root, ARCH, &facts).lib_dirs, vec![lib64, math]);
}

#[test]
fn symlinked_dirs_dedupe() {
    let mut tree = Tree::new();
    tree.touch(&format!("targets/{TARGET}/include/cuda.h"));
    tree.mkdirs(&format!("targets/{TARGET}/lib"));
    tree.link(&format!("targets/{TARGET}/include"), "include");
    tree.link(&format!("targets/{TARGET}/lib"), "lib");
    let facts = tree.facts();

    let tk = CudaToolkit::from_root(ROOT.to_string(), ARCH, &facts);
    assert_eq!(tk.include_dirs.len(), 1);
    assert_eq!(tk.lib_dirs.len(), 1);
    assert_eq!(tk.header_dir("cuda.h", &facts), Some(join_path(ROOT, "include")));
}

#[test]
fn unknown_layout_yields_nothing() {
    let mut tree = Tree::new();
    tree.mkdirs("weird/place");
    let facts = tree.facts();

    let tk = CudaToolkit::from_root(ROOT.to_string(), ARCH, &facts);
    assert!(tk.lib_dirs.is_empty());
    assert!(tk.include_dirs.is_empty());
    assert_eq!(tk.header_dir("cuda.h", &facts), None);
    assert_eq!(
        tk.link_search(),
        vec![format!("cargo:warning=no CUDA library dir found under {ROOT}")]
    );
    assert_eq!(
        tk.link_search_stubs(&facts),
        vec![format!("cargo:warning=no CUDA stub dir found under {ROOT}")]
    );
    assert_eq!(
        cuda_header(&tk, &facts),
        Err(format!(
            "cuda-sys build error: cuda.h not found under {ROOT}. Hint: install the CUDA SDK and/or set CUDA_HOME to its install root."
        ))
    );
}

#[test]
fn find_package_returns_matching_root_and_check_file() {
    let mut tree = Tree::new();
    tree.touch("include/gdrapi.h");
    let facts = tree.facts();

    let roots = package_roots(None, &vec![ROOT.to_string()]);
    let checks = vec![
        "targets/missing/include/gdrapi.h".to_string(),
        "include/gdrapi.h".to_string(),
    ];
    let found = find_package(&roots, &checks, &facts).expect("the header is there");
    assert_eq!(found.root, ROOT);
    assert_eq!(found.file, join_path(ROOT, "include/gdrapi.h"));
    assert!(!env_root_passed_over(false, &found));
    assert!(find_package(&roots, &vec!["include/cuda.h".to_string()], &facts).is_none());
}

#[test]
fn a_root_from_the_environment_is_tried_first() {
    let mut tree = Tree::new();
    tree.touch("include/gdrapi.h");
    let facts = tree.facts();
    let checks = vec!["include/gdrapi.h".to_string()];

    let roots = package_roots(Some("/opt/empty".to_string()), &vec![ROOT.to_string()]);
    assert_eq!(roots, vec!["/opt/empty".to_string(), ROOT.to_string()]);
    let found = find_package(&roots, &checks, &facts).expect("found by default");
    assert_eq!(found.root, ROOT);
    assert!(env_root_passed_over(true, &found));

    let roots = package_roots(Some(ROOT.to_string()), &vec!["/opt/empty".to_string()]);
    let found = find_package(&roots, &checks, &facts).expect("found where it was said to be");
    assert!(!env_root_passed_over(true, &found));
}

#[test]
fn one_architecture_has_two_target_names() {
    assert_eq!(target_dirs("aarch64"), vec!["aarch64-linux", "sbsa-linux"]);
    assert_eq!(target_dirs("x86_64"), vec!["x86_64-linux"]);
}

#[test]
fn the_toolkit_root_comes_from_the_environment() {
    assert_eq!(
        cuda_root(Some("/a".to_string()), Some("/b".to_string())),
        ("/a".to_string(), true)
    );
    assert_eq!(cuda_root(None, Some("/b".to_string())), ("/b".to_string(), true));
    assert_eq!(cuda_root(None, None), ("/usr/local/cuda".to_string(), false));
    let facts = FileFacts { entries: Vec::new() };
    assert_eq!(
        cuda_root_warning("/a", true, &facts),
        Some(
            "cargo:warning=CUDA root /a (from CUDA_HOME/CUDA_PATH) is not a directory".to_string()
        )
    );
    assert_eq!(cuda_root_warning("/a", false, &facts), None);
}

#[test]
fn files_are_watched_by_extension() {
    let extensions = vec!["cu".to_string(), "cuh".to_string()];
    assert_eq!(
        rerun_line("csrc/a.cu", &extensions),
        Some("cargo:rerun-if-changed=csrc/a.cu".to_string())
    );
    assert_eq!(rerun_line("csrc/a.rs", &extensions), None);
    assert_eq!(rerun_line("csrc/.cu", &extensions), None);
    assert_eq!(rerun_line("csrc/cu", &extensions), None);
    for path in ["a.tar.gz", ".hidden", ".hidden.cu", "a.", "..", "dir.d/file", "/", "x/.."] {
        let expected = std::path::Path::new(path)
            .extension()
            .and_then(|ext| ext.to_str())
            .map(|ext| ext.to_string());
        assert_eq!(extension(path), expected, "{path}");
    }
}

#[test]
fn the_profiling_interface_may_ship_apart() {
    let mut tree = Tree::new();
    tree.mkdirs("extras/CUPTI/include");
    let facts = tree.facts();
    assert_eq!(
        cupti_dirs(ROOT, &facts),
        (Some(format!("{ROOT}/extras/CUPTI/include")), None)
    );
}

#[test]
fn paths_read_like_the_standard_ones() {
    for path in ["/usr/local/cuda", "/usr/", "a/b/.", "a", "/", "", ".", "..", "a//b", "./a", "a/.."] {
        let std_path = std::path::Path::new(path);
        assert_eq!(
            file_name(path),
            std_path.file_name().and_then(|n| n.to_str()).map(|n| n.to_string()),
            "file name of {path:?}"
        );
        if path != "./a" && path != "a//b" && path != "a/b/." {
            assert_eq!(
                parent_path(path),
                std_path.parent().and_then(|n| n.to_str()).map(|n| n.to_string()),
                "parent of {path:?}"
            );
        }
    }
    for (base, name) in [("/a", "b"), ("/a/", "b"), ("", "b"), ("/a", "/b"), ("/a", "b/c")] {
        assert_eq!(
            join_path(base, name),
            std::path::Path::new(base).join(name).to_str().unwrap()
        );
    }
}
