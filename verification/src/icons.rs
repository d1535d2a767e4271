//! Choosing a project's icon: an image file in the project, else the icon of the
//! detected language stack, else a folder.
use vstd::prelude::*;
use crate::app::str_views;
use crate::text::{chars_of, string_of};

verus! {

/// A language stack that has a bundled icon.
#[derive(Debug, Clone, Copy, PartialEq, Eq, Structural)]
pub enum Stack {
    Rust,
    TypeScript,
    JavaScript,
    Go,
    Python,
    Ruby,
    Java,
    Cpp,
}

/// The icon chosen for a project.
#[derive(Debug, Clone, PartialEq)]
pub enum IconKind {
    /// The bundled icon of a language stack.
    BundledSvg(Stack),
    /// An image file in the project.
    ImageFile(String),
    Folder,
}

/// An icon choice as a plain value.
pub enum IconView {
    BundledSvg(Stack),
    ImageFile(Seq<char>),
    Folder,
}

impl View for IconKind {
    type V = IconView;

    open spec fn view(&self) -> IconView {
        match self {
            IconKind::BundledSvg(s) => IconView::BundledSvg(*s),
            IconKind::ImageFile(p) => IconView::ImageFile(p@),
            IconKind::Folder => IconView::Folder,
        }
    }
}

/// The image files looked for in a project, in order of preference.
pub open spec fn image_candidate_names() -> Seq<Seq<char>> {
    seq![
        "icon.png"@,
        "logo.png"@,
        "logo.svg"@,
        "favicon.ico"@,
        ".github/logo.png"@,
        ".github/LOGO.png"@,
    ]
}

/// The files that mark a language stack, in order of precedence.
pub open spec fn marker_names() -> Seq<Seq<char>> {
    seq![
        "Cargo.toml"@,
        "tsconfig.json"@,
        "package.json"@,
        "go.mod"@,
        "pyproject.toml"@,
        "requirements.txt"@,
        "Gemfile"@,
        "pom.xml"@,
        "build.gradle"@,
        "CMakeLists.txt"@,
    ]
}

/// The stack each marker file indicates, in the order of `marker_names`.
pub open spec fn marker_stacks() -> Seq<Stack> {
    seq![
        Stack::Rust,
        Stack::TypeScript,
        Stack::JavaScript,
        Stack::Go,
        Stack::Python,
        Stack::Python,
        Stack::Ruby,
        Stack::Java,
        Stack::Java,
        Stack::Cpp,
    ]
}

/// The image file names to look for, in order of preference.
pub fn image_candidates() -> (r: Vec<&'static str>)
    ensures
        str_views(r@) == image_candidate_names(),
{
    let mut r: Vec<&'static str> = Vec::new();
    r.push("icon.png");
    r.push("logo.png");
    r.push("logo.svg");
    r.push("favicon.ico");
    r.push(".github/logo.png");
    r.push(".github/LOGO.png");
    assert(str_views(r@) =~= image_candidate_names());
    r
}

/// The marker file names, in order of precedence.
pub fn marker_files() -> (r: Vec<&'static str>)
    ensures
        str_views(r@) == marker_names(),
{
    let mut r: Vec<&'static str> = Vec::new();
    r.push("Cargo.toml");
    r.push("tsconfig.json");
    r.push("package.json");
    r.push("go.mod");
    r.push("pyproject.toml");
    r.push("requirements.txt");
    r.push("Gemfile");
    r.push("pom.xml");
    r.push("build.gradle");
    r.push("CMakeLists.txt");
    assert(str_views(r@) =~= marker_names());
    r
}

/// The stack indicated by the marker file at position `i` of `marker_files`.
pub fn marker_stack(i: usize) -> (s: Stack)
    requires
        i < marker_stacks().len(),
    ensures
        s == marker_stacks()[i as int],
{
    if i == 0 {
        Stack::Rust
    } else if i == 1 {
        Stack::TypeScript
    } else if i == 2 {
        Stack::JavaScript
    } else if i == 3 {
        Stack::Go
    } else if i == 4 || i == 5 {
        Stack::Python
    } else if i == 6 {
        Stack::Ruby
    } else if i == 7 || i == 8 {
        Stack::Java
    } else {
        Stack::Cpp
    }
}

/// `root` joined with the relative path `name`: a `/` goes between them unless `root`
/// is empty or already ends in one.
pub open spec fn joined(root: Seq<char>, name: Seq<char>) -> Seq<char> {
    if root.len() == 0 {
        name
    } else if root.last() == '/' {
        root + name
    } else {
        root + seq!['/'] + name
    }
}

/// Joins a relative path onto a directory path.
pub fn join_path(root: &str, name: &str) -> (r: String)
    ensures
        r@ == joined(root@, name@),
{
    let mut out = chars_of(root);
    let n = chars_of(name);
    if out.len() > 0 && out[out.len() - 1] != '/' {
        out.push('/');
    }
    let mut i: usize = 0;
    let ghost start = out@;
    while i < n.len()
        invariant
            i <= n@.len(),
            out@ == start + n@.take(i as int),
        decreases n@.len() - i,
    {
        out.push(n[i]);
        assert(n@.take(i + 1) =~= n@.take(i as int).push(n@[i as int]));
        i += 1;
    }
    assert(n@.take(n@.len() as int) =~= n@);
    assert(out@ =~= joined(root@, name@));
    string_of(out.as_slice())
}

/// The file name has the extension `py`: it ends in `.py` after a non-empty stem.
pub open spec fn is_python_name(name: Seq<char>) -> bool {
    name.len() >= 4 && name.skip(name.len() - 3) == seq!['.', 'p', 'y']
}

/// Whether a directory entry with this file name is a Python source file.
pub fn is_python_file(name: &str) -> (r: bool)
    ensures
        r == is_python_name(name@),
{
    let n = chars_of(name);
    if n.len() < 4 {
        return false;
    }
    let k = n.len();
    let r = n[k - 3] == '.' && n[k - 2] == 'p' && n[k - 1] == 'y';
    proof {
        let tail = n@.skip(k - 3);
        if r {
            assert(tail =~= seq!['.', 'p', 'y']);
        } else if tail == seq!['.', 'p', 'y'] {
            assert(tail[0] == n@[k - 3]);
            assert(tail[1] == n@[k - 2]);
            assert(tail[2] == n@[k - 1]);
        }
    }
    r
}

/// Entry `i` of `flags` is present and true.
pub open spec fn flag(flags: Seq<bool>, i: int) -> bool {
    0 <= i < flags.len() && flags[i]
}

/// The first position below `n`, from `i` on, whose flag is set.
pub open spec fn first_flag(flags: Seq<bool>, i: int, n: int) -> Option<int>
    decreases n - i,
{
    if i >= n {
        None
    } else if flag(flags, i) {
        Some(i)
    } else {
        first_flag(flags, i + 1, n)
    }
}

/// The icon for the project at `root`, given which image candidates exist
/// (`images`, in the order of `image_candidate_names`), which marker files exist
/// (`markers`, in the order of `marker_names`), and whether it holds a Python file: the
/// first existing image, else the stack of the first existing marker, else Python when
/// a Python file is there, else a folder.
pub open spec fn detected_icon(root: Seq<char>, images: Seq<bool>, markers: Seq<bool>, has_python_file: bool) -> IconView {
    match first_flag(images, 0, image_candidate_names().len() as int) {
        Some(i) => IconView::ImageFile(joined(root, image_candidate_names()[i])),
        None => match first_flag(markers, 0, marker_names().len() as int) {
            Some(j) => IconView::BundledSvg(marker_stacks()[j]),
            None => if has_python_file {
                IconView::BundledSvg(Stack::Python)
            } else {
                IconView::Folder
            },
        },
    }
}

/// Chooses the icon for the project at `root` from what its directory holds: which
/// image candidates exist, which marker files exist, and whether it holds a Python
/// file. Missing entries of the flag lists count as absent.
pub fn choose_icon_kind(root: &str, images: &[bool], markers: &[bool], has_python_file: bool) -> (r: IconKind)
    ensures
        r@ == detected_icon(root@, images@, markers@, has_python_file),
{
    let names = image_candidates();
    let mut i: usize = 0;
    while i < names.len()
        invariant
            str_views(names@) == image_candidate_names(),
            i <= names@.len(),
            first_flag(images@, 0, names@.len() as int) == first_flag(images@, i as int, names@.len() as int),
        decreases names@.len() - i,
    {
        if i < images.len() && images[i] {
            let path = join_path(root, names[i]);
            assert(names@[i as int]@ == image_candidate_names()[i as int]);
            return IconKind::ImageFile(path);
        }
        i += 1;
    }
    let count = marker_files().len();
    let mut j: usize = 0;
    while j < count
        invariant
            count == marker_names().len(),
            j <= count,
            first_flag(images@, 0, image_candidate_names().len() as int) is None,
            first_flag(markers@, 0, count as int) == first_flag(markers@, j as int, count as int),
        decreases count - j,
    {
        if j < markers.len() && markers[j] {
            return IconKind::BundledSvg(marker_stack(j));
        }
        j += 1;
    }
    if has_python_file {
        IconKind::BundledSvg(Stack::Python)
    } else {
        IconKind::Folder
    }
}

/// Every marker file the detection knows is looked for, first to last: `Cargo.toml`,
/// `tsconfig.json`, `package.json`, `go.mod`, `pyproject.toml`, `requirements.txt`,
/// `Gemfile`, `pom.xml`, `build.gradle`, `CMakeLists.txt`.
pub proof fn law_marker_names_listed()
    ensures
        marker_names().len() == marker_stacks().len(),
        marker_names().contains("Cargo.toml"@),
        marker_names().contains("tsconfig.json"@),
        marker_names().contains("package.json"@),
        marker_names().contains("go.mod"@),
        marker_names().contains("pyproject.toml"@),
        marker_names().contains("requirements.txt"@),
        marker_names().contains("Gemfile"@),
        marker_names().contains("pom.xml"@),
        marker_names().contains("build.gradle"@),
        marker_names().contains("CMakeLists.txt"@),
{
    let names = marker_names();
    assert(names[0] == "Cargo.toml"@);
    assert(names[1] == "tsconfig.json"@);
    assert(names[2] == "package.json"@);
    assert(names[3] == "go.mod"@);
    assert(names[4] == "pyproject.toml"@);
    assert(names[5] == "requirements.txt"@);
    assert(names[6] == "Gemfile"@);
    assert(names[7] == "pom.xml"@);
    assert(names[8] == "build.gradle"@);
    assert(names[9] == "CMakeLists.txt"@);
}

/// Each marker file gives the stack its name denotes: `Cargo.toml` Rust,
/// `tsconfig.json` TypeScript, `package.json` JavaScript, `go.mod` Go,
/// `pyproject.toml` and `requirements.txt` Python, `Gemfile` Ruby, `pom.xml` and
/// `build.gradle` Java, `CMakeLists.txt` C++.
pub proof fn law_marker_names_denote_stacks(j: int)
    requires
        0 <= j < marker_names().len(),
    ensures
        marker_names()[j] == "Cargo.toml"@ ==> marker_stacks()[j] == Stack::Rust,
        marker_names()[j] == "tsconfig.json"@ ==> marker_stacks()[j] == Stack::TypeScript,
        marker_names()[j] == "package.json"@ ==> marker_stacks()[j] == Stack::JavaScript,
        marker_names()[j] == "go.mod"@ ==> marker_stacks()[j] == Stack::Go,
        marker_names()[j] == "pyproject.toml"@ ==> marker_stacks()[j] == Stack::Python,
        marker_names()[j] == "requirements.txt"@ ==> marker_stacks()[j] == Stack::Python,
        marker_names()[j] == "Gemfile"@ ==> marker_stacks()[j] == Stack::Ruby,
        marker_names()[j] == "pom.xml"@ ==> marker_stacks()[j] == Stack::Java,
        marker_names()[j] == "build.gradle"@ ==> marker_stacks()[j] == Stack::Java,
        marker_names()[j] == "CMakeLists.txt"@ ==> marker_stacks()[j] == Stack::Cpp,
{
    reveal_strlit("Cargo.toml");
    reveal_strlit("tsconfig.json");
    reveal_strlit("package.json");
    reveal_strlit("go.mod");
    reveal_strlit("pyproject.toml");
    reveal_strlit("requirements.txt");
    reveal_strlit("Gemfile");
    reveal_strlit("pom.xml");
    reveal_strlit("build.gradle");
    reveal_strlit("CMakeLists.txt");
    let n = marker_names()[j];
    let names = marker_names();
    assert forall|a: int, b: int| 0 <= a < b < 10 implies names[a] != names[b] by {
        if names[a] == names[b] {
            assert(names[a].len() == names[b].len());
            assert(names[a][0] == names[b][0]);
            assert(names[a][1] == names[b][1]);
            assert(names[a][2] == names[b][2]);
        }
    }
    assert(names[0] == "Cargo.toml"@);
    assert(names[1] == "tsconfig.json"@);
    assert(names[2] == "package.json"@);
    assert(names[3] == "go.mod"@);
    assert(names[4] == "pyproject.toml"@);
    assert(names[5] == "requirements.txt"@);
    assert(names[6] == "Gemfile"@);
    assert(names[7] == "pom.xml"@);
    assert(names[8] == "build.gradle"@);
    assert(names[9] == "CMakeLists.txt"@);
}

} // verus!
