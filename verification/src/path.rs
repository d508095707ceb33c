//! Paths of datasets: their text, and the extension that suggests a delimiter.
//!
//! What separates the components of a path is for the system to say, so the extension is
//! the standard library's. It is read once, and everything else goes by what was read.

use std::path::Path;
use vstd::prelude::*;
use vstd::string::StrSliceExecFns;

verus! {

/// The path of a dataset.
#[derive(Clone, Debug)]
pub struct DataPath {
    pub text: String,
    /// What the system takes for the extension of the file name, without the dot.
    pub extension: Option<String>,
}

/// What a [`DataPath`] says.
pub struct Located {
    pub text: Seq<char>,
    pub extension: Option<Seq<char>>,
}

impl View for DataPath {
    type V = Located;

    open spec fn view(&self) -> Located {
        Located {
            text: self.text@,
            extension: match self.extension {
                Some(e) => Some(e@),
                None => None,
            },
        }
    }
}

/// The path without what does not name anything at its end: slashes and `.` components.
pub open spec fn trimmed(path: Seq<char>) -> Seq<char>
    decreases path.len(),
{
    let n = path.len() as int;
    if n > 0 && path[n - 1] == '/' {
        trimmed(path.take(n - 1))
    } else if n > 1 && path[n - 1] == '.' && path[n - 2] == '/' {
        trimmed(path.take(n - 2))
    } else {
        path
    }
}

/// What stands behind the last slash.
pub open spec fn after_last_slash(path: Seq<char>) -> Seq<char>
    decreases path.len(),
{
    if path.len() == 0 || path.last() == '/' {
        Seq::empty()
    } else {
        after_last_slash(path.drop_last()).push(path.last())
    }
}

/// Where the last dot is; before the start where there is none.
pub open spec fn last_dot(name: Seq<char>) -> int
    decreases name.len(),
{
    if name.len() == 0 {
        -1
    } else if name.last() == '.' {
        name.len() - 1
    } else {
        last_dot(name.drop_last())
    }
}

/// The extension of a file name: what stands behind its last dot. A name that only starts
/// with a dot is that of a hidden file and has none.
pub open spec fn extension_of_name(name: Seq<char>) -> Option<Seq<char>> {
    if name == seq!['.', '.'] || last_dot(name) <= 0 {
        None
    } else {
        Some(name.skip(last_dot(name) + 1))
    }
}

/// The extension of the file that a path with slashes leads to.
pub open spec fn extension_by_slashes(path: Seq<char>) -> Option<Seq<char>> {
    extension_of_name(after_last_slash(trimmed(path)))
}

/// The path means the same on every system: it has slashes and nothing that separates or
/// names a volume on some systems only.
pub open spec fn is_portable(path: Seq<char>) -> bool {
    &&& !path.contains('\\')
    &&& !path.contains(':')
    &&& path.len() > 1 ==> !(path[0] == '/' && path[1] == '/')
}

/// `Path::extension`: what stands behind the last dot of the file name, unless there is no
/// file name or its only dot comes first. The file name is the last component but for
/// slashes and `.` components at the end, and there is none behind `..`. Systems differ
/// in what separates components and what comes before them; of a path on which they
/// differ nothing is said.
#[verifier::external_body]
fn system_extension(path: &str) -> (e: Option<String>)
    ensures
        is_portable(path@) ==> (match e {
            Some(e) => extension_by_slashes(path@) == Some(e@),
            None => extension_by_slashes(path@) is None,
        }),
{
    Path::new(path).extension().and_then(|e| e.to_str()).map(|e| e.to_owned())
}

impl DataPath {
    /// The path with this text, as the system reads it.
    pub fn new(text: &str) -> (path: DataPath)
        ensures
            path@.text == text@,
            is_portable(text@) ==> path@.extension == extension_by_slashes(text@),
    {
        DataPath { text: text.to_owned(), extension: system_extension(text) }
    }

    /// Whether the extension is `tsv` in either case.
    pub fn is_tsv(&self) -> (r: bool)
        ensures
            r == has_tsv_extension(self@),
    {
        match &self.extension {
            Some(e) => {
                let e: &str = e.as_str();
                e.unicode_len() == 3 && is_letter(e.get_char(0), 't', 'T') && is_letter(
                    e.get_char(1),
                    's',
                    'S',
                ) && is_letter(e.get_char(2), 'v', 'V')
            },
            None => false,
        }
    }
}

/// The extension is `tsv` in either case.
pub open spec fn has_tsv_extension(path: Located) -> bool {
    match path.extension {
        Some(e) => {
            &&& e.len() == 3
            &&& e[0] == 't' || e[0] == 'T'
            &&& e[1] == 's' || e[1] == 'S'
            &&& e[2] == 'v' || e[2] == 'V'
        },
        None => false,
    }
}

fn is_letter(c: char, small: char, capital: char) -> (r: bool)
    ensures
        r == (c == small || c == capital),
{
    c == small || c == capital
}

proof fn lemma_after_last_slash(path: Seq<char>, k: int)
    requires
        0 <= k <= path.len(),
        forall|i: int| path.len() - k <= i < path.len() ==> path[i] != '/',
        k < path.len() ==> path[path.len() - k - 1] == '/',
    ensures
        after_last_slash(path) == path.skip(path.len() - k),
    decreases path.len(),
{
    if path.len() == 0 {
        assert(path.skip(0) =~= Seq::empty());
    } else if k == 0 {
        assert(path.skip(path.len() as int) =~= Seq::empty());
    } else {
        lemma_after_last_slash(path.drop_last(), k - 1);
        assert(after_last_slash(path) =~= path.skip(path.len() - k));
    }
}

proof fn lemma_last_dot(name: Seq<char>, at: int)
    requires
        0 <= at < name.len(),
        name[at] == '.',
        forall|i: int| at < i < name.len() ==> name[i] != '.',
    ensures
        last_dot(name) == at,
    decreases name.len(),
{
    if at < name.len() - 1 {
        lemma_last_dot(name.drop_last(), at);
    }
}

/// A file name of something, a dot and an extension has that extension, whatever
/// directory it is in.
pub proof fn law_a_file_has_the_extension_it_is_named_with(
    directory: Seq<char>,
    stem: Seq<char>,
    extension: Seq<char>,
)
    requires
        directory.len() > 0 ==> directory.last() == '/',
        stem.len() > 0,
        !stem.contains('/'),
        extension.len() > 0,
        !extension.contains('/'),
        !extension.contains('.'),
    ensures
        extension_by_slashes(directory + stem + seq!['.'] + extension) == Some(extension),
{
    let name = stem + seq!['.'] + extension;
    let path = directory + stem + seq!['.'] + extension;
    assert(path =~= directory + name);
    assert forall|i: int| 0 <= i < extension.len() implies extension[i] != '/' && extension[i]
        != '.' by {
        assert(extension.contains(extension[i]));
    }
    assert forall|i: int| directory.len() <= i < path.len() implies path[i] != '/' by {
        if i < directory.len() + stem.len() {
            assert(stem.contains(stem[i - directory.len()]));
        } else if i > directory.len() + stem.len() {
            assert(path[i] == extension[i - directory.len() - stem.len() - 1]);
        }
    }
    assert(path.last() == extension.last());
    assert(trimmed(path) == path);
    lemma_after_last_slash(path, name.len() as int);
    assert(path.skip(directory.len() as int) =~= name);
    assert(name.last() == extension.last());
    lemma_last_dot(name, stem.len() as int);
    assert(name.skip(stem.len() as int + 1) =~= extension);
}

/// A file name without a dot has no extension, nor has one whose only dot comes first, nor
/// the directory above; slashes and `.` components at the end of a path make no difference.
pub proof fn law_other_names_have_no_extension(directory: Seq<char>, name: Seq<char>)
    requires
        directory.len() > 0 ==> directory.last() == '/',
        name.len() > 0,
        !name.contains('/'),
        !name.contains('.'),
    ensures
        extension_by_slashes(directory + name) is None,
        extension_by_slashes(directory + seq!['.'] + name) is None,
        extension_by_slashes(directory + seq!['.', '.']) is None,
        forall|path: Seq<char>|
            extension_by_slashes(#[trigger] path.push('/')) == extension_by_slashes(path),
        forall|path: Seq<char>|
            #[trigger] extension_by_slashes(path.push('/').push('.')) == extension_by_slashes(path),
{
    assert forall|i: int| 0 <= i < name.len() implies name[i] != '/' && name[i] != '.' by {
        assert(name.contains(name[i]));
    }
    let n = directory.len() as int;
    let plain = directory + name;
    assert forall|i: int| n <= i < plain.len() implies plain[i] != '/' by {
        assert(plain[i] == name[i - n]);
    }
    assert(plain.last() == name.last());
    lemma_after_last_slash(plain, name.len() as int);
    assert(plain.skip(n) =~= name);
    lemma_no_dot(name);
    let hidden_name = seq!['.'] + name;
    let hidden = directory + seq!['.'] + name;
    assert(hidden =~= directory + hidden_name);
    assert forall|i: int| n <= i < hidden.len() implies hidden[i] != '/' by {
        assert(hidden[i] == hidden_name[i - n]);
    }
    assert(hidden.last() == name.last());
    lemma_after_last_slash(hidden, hidden_name.len() as int);
    assert(hidden.skip(n) =~= hidden_name);
    assert forall|i: int| 0 < i < hidden_name.len() implies hidden_name[i] != '.' by {
        assert(hidden_name[i] == name[i - 1]);
    }
    lemma_last_dot(hidden_name, 0);
    let above = directory + seq!['.', '.'];
    assert(above[above.len() - 2] == '.');
    lemma_after_last_slash(above, 2);
    assert(above.skip(n) =~= seq!['.', '.']);
    assert forall|path: Seq<char>| extension_by_slashes(#[trigger] path.push('/'))
        == extension_by_slashes(path) by {
        assert(path.push('/').take(path.len() as int) =~= path);
    }
    assert forall|path: Seq<char>| #[trigger] extension_by_slashes(path.push('/').push('.'))
        == extension_by_slashes(path) by {
        assert(path.push('/').push('.').take(path.len() as int) =~= path);
    }
}

proof fn lemma_no_dot(name: Seq<char>)
    requires
        forall|i: int| 0 <= i < name.len() ==> name[i] != '.',
    ensures
        last_dot(name) == -1,
    decreases name.len(),
{
    if name.len() > 0 {
        lemma_no_dot(name.drop_last());
    }
}

/// A path says its text and its extension as they are.
pub proof fn law_a_path_is_taken_as_it_is(path: DataPath)
    ensures
        path@.text == path.text@,
        path.extension is None ==> path@.extension is None,
        path.extension matches Some(e) ==> path@.extension == Some(e@),
{
}

} // verus!
