//! Text helpers: exact and case-insensitive comparison, greeting assembly.
use vstd::prelude::*;
use vstd::string::*;

verus! {

/// What `str::to_lowercase` makes of a text.
pub uninterp spec fn lower_of(s: Seq<char>) -> Seq<char>;

/// What serenity's `Mention` of a user id prints.
pub uninterp spec fn user_mention_of(id: u64) -> Seq<char>;

/// Relies on `str::to_lowercase`: the lowercase form depends on the characters alone.
#[verifier::external_body]
fn lowercase(s: &str) -> (r: String)
    ensures
        r@ == lower_of(s@),
{
    s.to_lowercase()
}

/// Relies on serenity's `Mention::from(UserId)` and its `Display`: the text
/// that pings the user with this id.
#[verifier::external_body]
pub(crate) fn mention_user(id: u64) -> (r: String)
    ensures
        r@ == user_mention_of(id),
{
    serenity::model::misc::Mention::from(serenity::model::id::UserId(id)).to_string()
}

/// `s` with every occurrence of the non-empty `pat`, taken from the left and
/// without overlap, replaced by `with`.
pub open spec fn replaced(s: Seq<char>, pat: Seq<char>, with: Seq<char>) -> Seq<char>
    decreases s.len(),
{
    if pat.len() == 0 || s.len() < pat.len() {
        s
    } else if s.subrange(0, pat.len() as int) == pat {
        with + replaced(s.subrange(pat.len() as int, s.len() as int), pat, with)
    } else {
        seq![s[0]] + replaced(s.subrange(1, s.len() as int), pat, with)
    }
}

/// Relies on `str::replace`: each match of `pat`, scanning from the left and
/// without overlap, is replaced by `with`.
#[verifier::external_body]
fn replace_all(s: &str, pat: &str, with: &str) -> (r: String)
    requires
        pat@.len() > 0,
    ensures
        r@ == replaced(s@, pat@, with@),
{
    s.replace(pat, with)
}

/// The lines joined with a newline between each two.
pub open spec fn joined(lines: Seq<Seq<char>>) -> Seq<char>
    decreases lines.len(),
{
    if lines.len() == 0 {
        Seq::empty()
    } else if lines.len() == 1 {
        lines[0]
    } else {
        joined(lines.drop_last()) + seq!['\n'] + lines.last()
    }
}

/// The texts of a list of strings.
pub open spec fn texts(v: Seq<String>) -> Seq<Seq<char>> {
    v.map_values(|s: String| s@)
}

/// Whether two texts are the same, character for character.
pub fn same_text(a: &str, b: &str) -> (r: bool)
    ensures
        r == (a@ == b@),
{
    let n: usize = a.unicode_len();
    if n != b.unicode_len() {
        return false;
    }
    let mut i: usize = 0;
    while i < n
        invariant
            n == a@.len(),
            n == b@.len(),
            i <= n,
            forall|j: int| 0 <= j < i ==> a@[j] == b@[j],
        decreases n - i,
    {
        if a.get_char(i) != b.get_char(i) {
            return false;
        }
        i = i + 1;
    }
    assert(a@ =~= b@);
    true
}

/// Whether two texts agree once both are lowercased.
pub fn same_text_loose(a: &str, b: &str) -> (r: bool)
    ensures
        r == (lower_of(a@) == lower_of(b@)),
{
    let la = lowercase(a);
    let lb = lowercase(b);
    la == lb
}

/// The lines joined with newlines.
pub fn join_lines(lines: &Vec<String>) -> (r: String)
    ensures
        r@ == joined(texts(lines@)),
{
    let mut r = String::new();
    let sep = "\n";
    proof {
        reveal_strlit("\n");
    }
    let mut i: usize = 0;
    while i < lines.len()
        invariant
            i <= lines@.len(),
            sep@ == seq!['\n'],
            r@ == joined(texts(lines@.subrange(0, i as int))),
        decreases lines@.len() - i,
    {
        let ghost before = texts(lines@.subrange(0, i as int));
        let ghost after = texts(lines@.subrange(0, i + 1));
        assert(after.drop_last() =~= before);
        assert(after.last() == lines@[i as int]@);
        if i > 0 {
            r.append(sep);
        }
        r.append(lines[i].as_str());
        i = i + 1;
    }
    assert(lines@.subrange(0, lines@.len() as int) =~= lines@);
    r
}

/// The greeting template filled in: every `{mention}` becomes `mention`.
pub fn fill_mention(template: &str, mention: &str) -> (r: String)
    ensures
        r@ == replaced(template@, "{mention}"@, mention@),
{
    let pat = "{mention}";
    proof {
        reveal_strlit("{mention}");
    }
    replace_all(template, pat, mention)
}

} // verus!
