//! Which files of the asset directory go into the asset database, and under
//! which key: glTF files (`.gltf`, `.glb`) are imported as models named after
//! their file stem, `.png` files are stored as textures under their file
//! name, everything else is skipped.  Stem and extension follow the rules of
//! `std::path::Path`: the extension is what follows the last dot, unless the
//! name has no dot or its only dot leads the name.
use vstd::prelude::*;

verus! {

/// Index of the last `'.'` among the first `n` characters, or -1.
pub open spec fn last_dot_before(s: Seq<char>, n: int) -> int
    decreases n,
{
    if n <= 0 {
        -1
    } else if s[n - 1] == '.' {
        n - 1
    } else {
        last_dot_before(s, n - 1)
    }
}

pub open spec fn last_dot(s: Seq<char>) -> int {
    last_dot_before(s, s.len() as int)
}

pub open spec fn is_parent_name(s: Seq<char>) -> bool {
    s == seq!['.', '.']
}

/// The file stem of a file name: the part before the last dot, or the whole
/// name when it has no dot, its only dot leads it, or it is `..`.
pub open spec fn file_stem(s: Seq<char>) -> Seq<char> {
    if is_parent_name(s) || last_dot(s) <= 0 {
        s
    } else {
        s.take(last_dot(s))
    }
}

/// The extension of a file name: the part after the last dot, if the name
/// has a dot that does not lead it.
pub open spec fn file_extension(s: Seq<char>) -> Option<Seq<char>> {
    if is_parent_name(s) || last_dot(s) <= 0 {
        None
    } else {
        Some(s.skip(last_dot(s) + 1))
    }
}

/// What the database populator does with one file.
#[derive(Clone, Debug, PartialEq, Eq)]
pub enum AssetFileAction {
    /// Import the file as a model under this name.
    ImportModel { model_name: String },
    /// Store the file's bytes as a texture under this name.
    StoreTexture { texture_name: String },
    /// Leave the file out.
    Skip,
}

pub ghost enum AssetFileActionView {
    ImportModel { model_name: Seq<char> },
    StoreTexture { texture_name: Seq<char> },
    Skip,
}

impl View for AssetFileAction {
    type V = AssetFileActionView;

    open spec fn view(&self) -> AssetFileActionView {
        match self {
            AssetFileAction::ImportModel { model_name } => AssetFileActionView::ImportModel {
                model_name: model_name@,
            },
            AssetFileAction::StoreTexture { texture_name } => AssetFileActionView::StoreTexture {
                texture_name: texture_name@,
            },
            AssetFileAction::Skip => AssetFileActionView::Skip,
        }
    }
}

/// The action for a file of this name.
pub open spec fn file_action(name: Seq<char>) -> AssetFileActionView {
    match file_extension(name) {
        Some(ext) => if ext == seq!['g', 'l', 't', 'f'] || ext == seq!['g', 'l', 'b'] {
            AssetFileActionView::ImportModel { model_name: file_stem(name) }
        } else if ext == seq!['p', 'n', 'g'] {
            AssetFileActionView::StoreTexture { texture_name: name }
        } else {
            AssetFileActionView::Skip
        },
        None => AssetFileActionView::Skip,
    }
}

/// Whether a string holds exactly the given characters.
fn str_is(s: &str, expected: &str) -> (r: bool)
    ensures
        r == (s@ == expected@),
{
    let n = s.unicode_len();
    if n != expected.unicode_len() {
        return false;
    }
    let mut i: usize = 0;
    while i < n
        invariant
            n == s@.len(),
            n == expected@.len(),
            i <= n,
            forall|j: int| 0 <= j < i ==> s@[j] == expected@[j],
        decreases n - i,
    {
        if s.get_char(i) != expected.get_char(i) {
            return false;
        }
        i = i + 1;
    }
    assert(s@ =~= expected@);
    true
}

/// Index of the last dot of a name, or `None` when it has none.
fn find_last_dot(s: &str) -> (r: Option<usize>)
    ensures
        match r {
            Some(i) => i as int == last_dot(s@),
            None => last_dot(s@) == -1,
        },
{
    let n = s.unicode_len();
    let mut i: usize = n;
    while i > 0
        invariant
            n == s@.len(),
            i <= n,
            last_dot(s@) == last_dot_before(s@, i as int),
        decreases i,
    {
        if s.get_char(i - 1) == '.' {
            return Some(i - 1);
        }
        i = i - 1;
    }
    None
}

proof fn lemma_last_dot_range(s: Seq<char>, n: int)
    requires
        0 <= n <= s.len(),
    ensures
        -1 <= last_dot_before(s, n) < n,
        last_dot_before(s, n) >= 0 ==> s[last_dot_before(s, n)] == '.',
    decreases n,
{
    if n > 0 {
        lemma_last_dot_range(s, n - 1);
    }
}

/// Decides what the database populator does with the file of this name.
pub fn classify_asset_file(file_name: &str) -> (r: AssetFileAction)
    ensures
        r@ == file_action(file_name@),
{
    proof {
        lemma_last_dot_range(file_name@, file_name@.len() as int);
        reveal_strlit("..");
        reveal_strlit("gltf");
        reveal_strlit("glb");
        reveal_strlit("png");
        assert(".."@ =~= seq!['.', '.']);
        assert("gltf"@ =~= seq!['g', 'l', 't', 'f']);
        assert("glb"@ =~= seq!['g', 'l', 'b']);
        assert("png"@ =~= seq!['p', 'n', 'g']);
    }
    if str_is(file_name, "..") {
        return AssetFileAction::Skip;
    }
    let dot = match find_last_dot(file_name) {
        Some(i) => i,
        None => {
            return AssetFileAction::Skip;
        },
    };
    if dot == 0 {
        return AssetFileAction::Skip;
    }
    let n = file_name.unicode_len();
    let ext = file_name.substring_char(dot + 1, n);
    assert(!is_parent_name(file_name@));
    assert(ext@ =~= file_name@.skip(dot + 1));
    if str_is(ext, "gltf") || str_is(ext, "glb") {
        let stem = file_name.substring_char(0, dot);
        assert(stem@ =~= file_stem(file_name@));
        AssetFileAction::ImportModel { model_name: stem.to_owned() }
    } else if str_is(ext, "png") {
        AssetFileAction::StoreTexture { texture_name: file_name.to_owned() }
    } else {
        AssetFileAction::Skip
    }
}

} // verus!
