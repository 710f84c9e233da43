//! Which entries of the model directory are models, and under what names.
use vstd::prelude::*;
use vstd::string::{StrSliceExecFns, StringExecFns};
use crate::args::texts;

verus! {

/// What a scan of the model directory reports of one entry: its full path
/// as displayed, its file name, and whether it is a regular file.
#[derive(Clone, Debug)]
pub struct DirItem {
    pub path: String,
    pub file_name: String,
    pub is_file: bool,
}

/// Position of the last `.` of a file name, or -1 where it has none.
pub open spec fn last_dot(s: Seq<char>) -> int
    decreases s.len(),
{
    if s.len() == 0 {
        -1
    } else if s.last() == '.' {
        s.len() - 1
    } else {
        last_dot(s.drop_last())
    }
}

/// The extension of a file name: what follows its last dot, where that dot
/// is not the name's first character (`..` has none).
pub open spec fn extension_of(name: Seq<char>) -> Option<Seq<char>> {
    let i = last_dot(name);
    if name == ".."@ || i <= 0 {
        None
    } else {
        Some(name.subrange(i + 1, name.len() as int))
    }
}

/// The stem of a file name: the name without its extension and the dot
/// before it, or the whole name where it has no extension.
pub open spec fn stem_of(name: Seq<char>) -> Seq<char> {
    match extension_of(name) {
        Some(_) => name.subrange(0, last_dot(name)),
        None => name,
    }
}

/// A model file is a regular file with the extension `gguf`.
pub open spec fn is_model(e: DirItem) -> bool {
    e.is_file && extension_of(e.file_name@) == Some("gguf"@)
}

/// The models among the entries, in their order, each as its path and name.
pub open spec fn models_spec(es: Seq<DirItem>) -> Seq<(Seq<char>, Seq<char>)>
    decreases es.len(),
{
    if es.len() == 0 {
        Seq::empty()
    } else {
        let front = models_spec(es.drop_last());
        let e = es.last();
        if is_model(e) {
            front.push((e.path@, stem_of(e.file_name@)))
        } else {
            front
        }
    }
}

/// The names of the models among the entries, in their order.
pub open spec fn model_names_spec(es: Seq<DirItem>) -> Seq<Seq<char>> {
    second_texts(models_spec(es))
}

/// The second text of each pair.
pub open spec fn second_texts(ps: Seq<(Seq<char>, Seq<char>)>) -> Seq<Seq<char>> {
    ps.map_values(|p: (Seq<char>, Seq<char>)| p.1)
}

/// The texts of each pair of strings.
pub open spec fn pair_texts(ps: Seq<(String, String)>) -> Seq<(Seq<char>, Seq<char>)> {
    ps.map_values(|p: (String, String)| (p.0@, p.1@))
}

proof fn lemma_last_dot_bounds(s: Seq<char>)
    ensures
        -1 <= last_dot(s) < s.len(),
        last_dot(s) >= 0 ==> s[last_dot(s)] == '.',
        forall|j: int| last_dot(s) < j < s.len() ==> s[j] != '.',
    decreases s.len(),
{
    if s.len() > 0 && s.last() != '.' {
        let t = s.drop_last();
        lemma_last_dot_bounds(t);
        assert forall|j: int| last_dot(s) < j < s.len() implies s[j] != '.' by {
            if j < s.len() - 1 {
                assert(s[j] == t[j]);
            }
        }
    }
}

/// Position of the last dot of a file name, if any.
fn find_last_dot(name: &str) -> (r: Option<usize>)
    ensures
        r matches Some(i) ==> i as int == last_dot(name@),
        r is None ==> last_dot(name@) == -1,
{
    let n = name.unicode_len();
    let mut i: usize = n;
    assert(name@.subrange(0, n as int) =~= name@);
    while i > 0
        invariant
            i <= n == name@.len(),
            last_dot(name@) == last_dot(name@.subrange(0, i as int)),
        decreases i,
    {
        let ghost pre = name@.subrange(0, i as int);
        assert(pre.drop_last() =~= name@.subrange(0, i - 1));
        if name.get_char(i - 1) == '.' {
            return Some(i - 1);
        }
        i = i - 1;
    }
    assert(name@.subrange(0, 0) =~= Seq::<char>::empty());
    None
}

/// The extension of a file name, if it has one.
pub fn extension(name: &str) -> (r: Option<String>)
    ensures
        r matches Some(x) ==> extension_of(name@) == Some(x@),
        r is None ==> extension_of(name@) is None,
{
    proof {
        lemma_last_dot_bounds(name@);
        reveal_strlit("..");
    }
    let n = name.unicode_len();
    let two_dots = String::from_str("..");
    if String::from_str(name) == two_dots {
        return None;
    }
    match find_last_dot(name) {
        Some(i) => {
            if i == 0 {
                None
            } else {
                Some(String::from_str(name.substring_char(i + 1, n)))
            }
        },
        None => None,
    }
}

/// The stem of a file name.
pub fn file_stem(name: &str) -> (r: String)
    ensures
        r@ == stem_of(name@),
{
    proof {
        lemma_last_dot_bounds(name@);
    }
    match extension(name) {
        Some(_) => {
            let i = find_last_dot(name);
            match i {
                Some(i) => String::from_str(name.substring_char(0, i)),
                None => String::from_str(name),
            }
        },
        None => String::from_str(name),
    }
}

/// Whether a directory entry is a model file.
pub fn is_model_file(e: &DirItem) -> (r: bool)
    ensures
        r == is_model(*e),
{
    if !e.is_file {
        return false;
    }
    match extension(e.file_name.as_str()) {
        Some(x) => {
            let gguf = String::from_str("gguf");
            x == gguf
        },
        None => false,
    }
}

/// The models among the scanned entries of the model directory, in their
/// order, each as its path and its name (the file's stem).
pub fn list_models(entries: &Vec<DirItem>) -> (r: Vec<(String, String)>)
    ensures
        pair_texts(r@) == models_spec(entries@),
{
    let mut r: Vec<(String, String)> = Vec::new();
    let mut i: usize = 0;
    while i < entries.len()
        invariant
            i <= entries@.len(),
            pair_texts(r@) == models_spec(entries@.subrange(0, i as int)),
        decreases entries@.len() - i,
    {
        let e = &entries[i];
        let ghost next = entries@.subrange(0, i + 1);
        assert(next.drop_last() =~= entries@.subrange(0, i as int));
        assert(next.last() == *e);
        if is_model_file(e) {
            r.push((e.path.clone(), file_stem(e.file_name.as_str())));
        }
        assert(pair_texts(r@) =~= models_spec(next));
        i = i + 1;
    }
    assert(entries@.subrange(0, i as int) =~= entries@);
    r
}

/// The names of the models among the scanned entries, in their order.
pub fn model_names(entries: &Vec<DirItem>) -> (r: Vec<String>)
    ensures
        texts(r@) == model_names_spec(entries@),
{
    let mut r: Vec<String> = Vec::new();
    let mut i: usize = 0;
    while i < entries.len()
        invariant
            i <= entries@.len(),
            texts(r@) == model_names_spec(entries@.subrange(0, i as int)),
        decreases entries@.len() - i,
    {
        let e = &entries[i];
        let ghost prev = entries@.subrange(0, i as int);
        proof {
            assert(prev.push(*e) =~= entries@.subrange(0, i + 1));
            lemma_names_follow_entries(prev, *e);
        }
        if is_model_file(e) {
            let ghost before = r@;
            r.push(file_stem(e.file_name.as_str()));
            assert(texts(r@) =~= texts(before).push(r@.last()@));
        }
        i = i + 1;
    }
    assert(entries@.subrange(0, i as int) =~= entries@);
    r
}

/// The names follow the directory's entries: scanning one more entry adds its
/// stem at the end where it is a model file and changes nothing otherwise, so
/// every name comes from a model file and nothing of an earlier scan remains.
pub proof fn lemma_names_follow_entries(es: Seq<DirItem>, e: DirItem)
    ensures
        is_model(e) ==> model_names_spec(es.push(e)) == model_names_spec(es).push(stem_of(e.file_name@)),
        !is_model(e) ==> model_names_spec(es.push(e)) == model_names_spec(es),
{
    assert(es.push(e).drop_last() =~= es);
    if is_model(e) {
        assert(model_names_spec(es.push(e)) =~= model_names_spec(es).push(stem_of(e.file_name@)));
    }
}

/// Every model name is the stem of a model file among the entries.
pub proof fn lemma_names_from_model_files(es: Seq<DirItem>, k: int)
    requires
        0 <= k < model_names_spec(es).len(),
    ensures
        exists|j: int| 0 <= j < es.len() && is_model(#[trigger] es[j]) && model_names_spec(es)[k] == stem_of(es[j].file_name@),
    decreases es.len(),
{
    let front = es.drop_last();
    let e = es.last();
    lemma_names_follow_entries(front, e);
    assert(front.push(e) =~= es);
    if is_model(e) && k == model_names_spec(front).len() {
        assert(is_model(es[es.len() - 1]));
    } else {
        lemma_names_from_model_files(front, k);
        let j = choose|j: int| 0 <= j < front.len() && is_model(#[trigger] front[j]) && model_names_spec(front)[k] == stem_of(front[j].file_name@);
        assert(es[j] == front[j]);
    }
}

} // verus!
