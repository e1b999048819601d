//! Names of snapshot files.
use vstd::prelude::*;
use vstd::string::*;
use crate::paths::{file_name, file_name_of, join_path, joined, lemma_joined_comes_apart};

verus! {

broadcast use vstd::string::axiom_spec_iter;

/// The lower-case equivalent of a text.
pub uninterp spec fn lowered(text: Seq<char>) -> Seq<char>;

/// A letter or a digit, of any script.
pub uninterp spec fn alphanumeric(c: char) -> bool;

/// `str::to_lowercase`: the lower-case equivalent of the text. Which it is, is not
/// stated.
#[verifier::external_body]
fn lower(text: &str) -> (r: String)
    ensures
        r@ == lowered(text@),
{
    text.to_lowercase()
}

/// `char::is_alphanumeric`: whether Unicode counts the character as a letter or a
/// digit. For which characters it does, is not stated.
#[verifier::external_body]
fn is_alphanumeric(c: char) -> (r: bool)
    ensures
        r == alphanumeric(c),
{
    c.is_alphanumeric()
}

/// A text without a prefix, or as it is where it does not start with it.
pub open spec fn without_prefix(text: Seq<char>, prefix: Seq<char>) -> Seq<char> {
    if prefix.is_prefix_of(text) {
        text.skip(prefix.len() as int)
    } else {
        text
    }
}

fn starts_with(text: &str, prefix: &str) -> (r: bool)
    ensures
        r == prefix@.is_prefix_of(text@),
{
    let len: usize = prefix.unicode_len();
    if text.unicode_len() < len {
        return false;
    }
    let mut i: usize = 0;
    while i < len
        invariant
            len == prefix@.len(),
            len <= text@.len(),
            i <= len,
            forall|k: int| 0 <= k < i ==> prefix@[k] == text@[k],
        decreases len - i,
    {
        if text.get_char(i) != prefix.get_char(i) {
            return false;
        }
        i = i + 1;
    }
    assert(prefix@ =~= text@.take(len as int));
    true
}

fn drop_prefix(text: &str, prefix: &str) -> (r: String)
    requires
        prefix@.is_prefix_of(text@),
    ensures
        r@ == text@.skip(prefix@.len() as int),
{
    let rest = text.substring_char(prefix.unicode_len(), text.unicode_len());
    assert(rest@ =~= text@.skip(prefix@.len() as int));
    String::from_str(rest)
}

/// The product name of a GPU, without its vendor and its line.
pub open spec fn product_name(name: Seq<char>) -> Seq<char> {
    if "NVIDIA GeForce "@.is_prefix_of(name) {
        without_prefix(name, "NVIDIA GeForce "@)
    } else {
        without_prefix(name, "NVIDIA "@)
    }
}

pub fn strip_vendor(name: &str) -> (r: String)
    ensures
        r@ == product_name(name@),
{
    if starts_with(name, "NVIDIA GeForce ") {
        drop_prefix(name, "NVIDIA GeForce ")
    } else if starts_with(name, "NVIDIA ") {
        drop_prefix(name, "NVIDIA ")
    } else {
        String::from_str(name)
    }
}

/// Every character but letters and digits as a dash.
pub open spec fn dashed(text: Seq<char>) -> Seq<char> {
    text.map_values(
        |c: char|
            if alphanumeric(c) {
                c
            } else {
                '-'
            },
    )
}

fn dash_others(text: &str) -> (r: String)
    ensures
        r@ == dashed(text@),
{
    let mut out = String::new();
    assert(out@ =~= dashed(text@.take(0)));
    for c in it: text.chars()
        invariant
            it.seq() == text@,
            out@ == dashed(text@.take(it.index() as int)),
    {
        let ghost before = out@;
        assert(text@[it.index() as int] == c);
        if is_alphanumeric(c) {
            out.push(c);
        } else {
            out.push('-');
        }
        assert(out@ =~= dashed(text@.take(it.index() as int + 1)));
    }
    assert(text@.take(text@.len() as int) =~= text@);
    out
}

/// The words between dashes, with one dash between them.
pub open spec fn words_joined(text: Seq<char>) -> Seq<char>
    decreases text.len(),
{
    if text.len() == 0 {
        Seq::empty()
    } else {
        let before = words_joined(text.drop_last());
        let c = text.last();
        if c == '-' {
            before
        } else if before.len() > 0 && text[text.len() - 2] == '-' {
            before.push('-').push(c)
        } else {
            before.push(c)
        }
    }
}

pub fn join_words(text: &str) -> (r: String)
    ensures
        r@ == words_joined(text@),
{
    let mut out = String::new();
    let mut any: bool = false;
    let mut after_dash: bool = false;
    assert(out@ =~= words_joined(text@.take(0)));
    for c in it: text.chars()
        invariant
            it.seq() == text@,
            out@ == words_joined(text@.take(it.index() as int)),
            any == (out@.len() > 0),
            after_dash == (it.index() > 0 && text@[it.index() - 1] == '-'),
            any ==> it.index() > 0,
    {
        assert(text@.take(it.index() as int + 1).drop_last() =~= text@.take(it.index() as int));
        assert(text@.take(it.index() as int + 1).last() == c);
        if c == '-' {
            after_dash = true;
        } else {
            if any && after_dash {
                out.push('-');
            }
            out.push(c);
            any = true;
            after_dash = false;
        }
    }
    assert(text@.take(text@.len() as int) =~= text@);
    out
}

pub open spec fn slug_of(lowered_name: Seq<char>) -> Seq<char> {
    words_joined(dashed(lowered_name))
}

/// The slug of a name that is in lower case already.
pub fn slug(lowered_name: &str) -> (r: String)
    ensures
        r@ == slug_of(lowered_name@),
{
    join_words(dash_others(lowered_name).as_str())
}

/// Produces a slug from the name of a GPU that is safe in a path.
pub fn gpu_slug_from(name: &str) -> (r: String)
    ensures
        r@ == slug_of(lowered(product_name(name@))),
{
    slug(lower(strip_vendor(name).as_str()).as_str())
}

/// No dash at either end, and never two in a row.
pub open spec fn tidy(text: Seq<char>) -> bool {
    &&& text.len() > 0 ==> text[0] != '-' && text.last() != '-'
    &&& forall|i: int| 0 <= i < text.len() - 1 ==> (#[trigger] text[i]) != '-' || text[i + 1] != '-'
}

proof fn lemma_words_are_tidy(text: Seq<char>)
    ensures
        tidy(words_joined(text)),
        forall|i: int|
            0 <= i < words_joined(text).len() ==> (#[trigger] words_joined(text)[i]) == '-'
                || text.contains(words_joined(text)[i]),
    decreases text.len(),
{
    if text.len() > 0 {
        let head = text.drop_last();
        lemma_words_are_tidy(head);
        let words = words_joined(text);
        let before = words_joined(head);
        assert forall|i: int| 0 <= i < words.len() implies (#[trigger] words[i]) == '-'
            || text.contains(words[i]) by {
            if i < before.len() {
                assert(words[i] == before[i]);
                if before[i] != '-' {
                    let k = choose|k: int| 0 <= k < head.len() && head[k] == before[i];
                    assert(text[k] == words[i]);
                }
            } else if words[i] != '-' {
                assert(text[text.len() - 1] == words[i]);
            }
        }
    }
}

/// A slug holds letters, digits and dashes alone. It neither starts nor ends with a
/// dash, and no two dashes stand side by side.
pub proof fn lemma_slug_is_safe_in_a_path(lowered_name: Seq<char>)
    ensures
        tidy(slug_of(lowered_name)),
        forall|i: int|
            0 <= i < slug_of(lowered_name).len() ==> (#[trigger] slug_of(lowered_name)[i]) == '-'
                || alphanumeric(slug_of(lowered_name)[i]),
{
    lemma_words_are_tidy(dashed(lowered_name));
    let text = dashed(lowered_name);
    let slug = slug_of(lowered_name);
    assert forall|i: int| 0 <= i < slug.len() implies (#[trigger] slug[i]) == '-' || alphanumeric(
        slug[i],
    ) by {
        if slug[i] != '-' {
            let k = choose|k: int| 0 <= k < text.len() && text[k] == slug[i];
            assert(text[k] == slug[i]);
        }
    }
}

/// The last part of a model's path, or `unknown`.
pub open spec fn display_name(model_path: Seq<char>) -> Seq<char> {
    match file_name_of(model_path) {
        Some(name) => name,
        None => "unknown"@,
    }
}

pub fn model_display_name(model_path: &str) -> (r: String)
    ensures
        r@ == display_name(model_path@),
{
    match file_name(model_path) {
        Some(name) => name,
        None => String::from_str("unknown"),
    }
}

pub open spec fn snapshot_dir_of(root: Seq<char>, gpu: Seq<char>) -> Seq<char> {
    joined(root, slug_of(lowered(product_name(gpu))))
}

/// Where the snapshots of a GPU are kept.
pub fn snapshot_dir(root: &str, gpu: &str) -> (r: String)
    ensures
        r@ == snapshot_dir_of(root@, gpu@),
{
    join_path(root, gpu_slug_from(gpu).as_str())
}

/// The file that holds the snapshot of a model.
pub fn snapshot_path(root: &str, gpu: &str, model_name: &str) -> (r: String)
    ensures
        r@ == joined(snapshot_dir_of(root@, gpu@), lowered(model_name@) + ".json"@),
{
    let mut file = lower(model_name);
    file.append(".json");
    join_path(snapshot_dir(root, gpu).as_str(), file.as_str())
}

/// The characters of a text that are no dashes.
pub open spec fn undashed(text: Seq<char>) -> Seq<char> {
    text.filter(|c: char| c != '-')
}

/// Joining words loses and moves no character but dashes, and leaves a tidy text alone.
pub proof fn lemma_joining_keeps_the_words(text: Seq<char>)
    ensures
        undashed(words_joined(text)) == undashed(text),
        tidy(text) ==> words_joined(text) == text,
    decreases text.len(),
{
    reveal(Seq::filter);
    if text.len() > 0 {
        let head = text.drop_last();
        let before = words_joined(head);
        lemma_joining_keeps_the_words(head);
        let c = text.last();
        let words = words_joined(text);
        if c != '-' {
            if before.len() > 0 && text[text.len() - 2] == '-' {
                assert(words.drop_last() =~= before.push('-'));
                assert(before.push('-').drop_last() =~= before);
                assert(undashed(before.push('-')) == undashed(before));
            } else {
                assert(words.drop_last() =~= before);
            }
        }
        if tidy(text) {
            lemma_tidy_head(text);
        }
    }
}

proof fn lemma_tidy_head(text: Seq<char>)
    requires
        text.len() > 0,
        tidy(text),
    ensures
        words_joined(text) == text,
    decreases text.len(),
{
    let head = text.drop_last();
    if head.len() == 0 {
        assert(words_joined(head) =~= Seq::<char>::empty());
        assert(words_joined(text) =~= text);
    } else if head.last() != '-' {
        assert forall|i: int| 0 <= i < head.len() - 1 implies (#[trigger] head[i]) != '-' || head[i
            + 1] != '-' by {
            assert(text[i] == head[i]);
        }
        lemma_tidy_head(head);
        assert(words_joined(text) =~= text);
    } else {
        let front = head.drop_last();
        assert(text[text.len() - 2] == '-');
        assert(front.len() > 0) by {
            if front.len() == 0 {
                assert(text[0] == '-');
            }
        }
        assert(front.last() == text[text.len() - 3]);
        assert(front.last() != '-');
        assert forall|i: int| 0 <= i < front.len() - 1 implies (#[trigger] front[i]) != '-'
            || front[i + 1] != '-' by {
            assert(text[i] == front[i]);
        }
        lemma_tidy_head(front);
        assert(words_joined(head) == front);
        assert(words_joined(text) =~= text);
    }
}

/// A product name is the name without the vendor, and without the line where there is one;
/// any other name is its own product name.
pub proof fn lemma_vendor_is_stripped(name: Seq<char>)
    ensures
        product_name("NVIDIA GeForce "@ + name) == name,
        !"GeForce "@.is_prefix_of(name) ==> product_name("NVIDIA "@ + name) == name,
        !"NVIDIA "@.is_prefix_of(name) ==> product_name(name) == name,
{
    reveal_strlit("NVIDIA GeForce ");
    reveal_strlit("NVIDIA ");
    reveal_strlit("GeForce ");
    let line = "NVIDIA GeForce "@;
    let vendor = "NVIDIA "@;
    assert((line + name).take(line.len() as int) =~= line);
    assert((line + name).skip(line.len() as int) =~= name);
    assert((vendor + name).take(vendor.len() as int) =~= vendor);
    assert((vendor + name).skip(vendor.len() as int) =~= name);
    if line.is_prefix_of(vendor + name) {
        assert forall|i: int| 0 <= i < "GeForce "@.len() implies "GeForce "@[i] == #[trigger] name[i] by {
            assert((vendor + name)[i + 7] == line[i + 7]);
        }
        assert("GeForce "@ =~= name.take("GeForce "@.len() as int));
    }
    if line.is_prefix_of(name) {
        assert(vendor =~= name.take(vendor.len() as int)) by {
            assert forall|i: int| 0 <= i < vendor.len() implies vendor[i] == #[trigger] name[i] by {
                assert(line[i] == name[i]);
            }
        }
    }
}

/// A character of a dashed text is the one that stood there, or a dash in its place.
pub proof fn lemma_dashes_replace_others(text: Seq<char>, i: int)
    requires
        0 <= i < text.len(),
    ensures
        dashed(text).len() == text.len(),
        alphanumeric(text[i]) ==> dashed(text)[i] == text[i],
        !alphanumeric(text[i]) ==> dashed(text)[i] == '-',
{
}

/// A model is shown by the last part of its path.
pub proof fn lemma_model_is_shown_by_its_last_part(base: Seq<char>, name: Seq<char>)
    requires
        name.len() > 0,
        name != seq!['.'],
        name != seq!['.', '.'],
        forall|i: int| 0 <= i < name.len() ==> #[trigger] name[i] != '/',
    ensures
        display_name(joined(base, name)) == name,
{
    lemma_joined_comes_apart(base, name);
}

} // verus!
