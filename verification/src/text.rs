use vstd::prelude::*;
use vstd::string::*;

verus! {

/// Whitespace as the control protocol understands it: space, tab, newline,
/// carriage return. Command and target tokens are runs of anything else.
pub open spec fn is_space_char(c: char) -> bool {
    c == ' ' || c == '\t' || c == '\n' || c == '\r'
}

pub fn is_space(c: char) -> (r: bool)
    ensures
        r == is_space_char(c),
{
    c == ' ' || c == '\t' || c == '\n' || c == '\r'
}

/// Character-for-character equality of two string slices.
pub fn str_eq(a: &str, b: &str) -> (r: bool)
    ensures
        r == (a@ == b@),
{
    let alen: usize = a.unicode_len();
    let blen: usize = b.unicode_len();
    if alen != blen {
        return false;
    }
    let mut i: usize = 0;
    while i < alen
        invariant
            alen == a@.len(),
            blen == b@.len(),
            alen == blen,
            i <= alen,
            forall|j: int| 0 <= j < i ==> a@[j] == b@[j],
        decreases alen - i,
    {
        if a.get_char(i) != b.get_char(i) {
            return false;
        }
        i += 1;
    }
    proof {
        assert(a@ =~= b@);
    }
    true
}

/// Substitution state after the first `i` characters of the template have
/// been consumed and `acc` has been emitted: the remaining characters are
/// appended to `acc`, with each `{}` pair replaced by `name`, scanning left
/// to right over non-overlapping occurrences.
pub open spec fn subst_rec(t: Seq<char>, name: Seq<char>, i: int, acc: Seq<char>) -> Seq<char>
    decreases t.len() - i,
{
    if i < 0 || i >= t.len() {
        acc
    } else if i + 1 < t.len() && t[i] == '{' && t[i + 1] == '}' {
        subst_rec(t, name, i + 2, acc + name)
    } else {
        subst_rec(t, name, i + 1, acc.push(t[i]))
    }
}

/// The program template with every `{}` placeholder replaced by `name`.
pub open spec fn subst(t: Seq<char>, name: Seq<char>) -> Seq<char> {
    subst_rec(t, name, 0, Seq::empty())
}

/// Build the command line for one target: the template with every `{}`
/// replaced by the target's name.
pub fn substitute(template: &str, name: &str) -> (r: String)
    ensures
        r@ == subst(template@, name@),
{
    let n: usize = template.unicode_len();
    let mut out = String::new();
    let mut i: usize = 0;
    while i < n
        invariant
            n == template@.len(),
            i <= n,
            subst(template@, name@) == subst_rec(template@, name@, i as int, out@),
        decreases n - i,
    {
        let c = template.get_char(i);
        if i + 1 < n && c == '{' && template.get_char(i + 1) == '}' {
            out.append(name);
            i += 2;
        } else {
            let ghost prev = out@;
            let piece = template.substring_char(i, i + 1);
            out.append(piece);
            proof {
                assert(out@ =~= prev.push(template@[i as int]));
            }
            i += 1;
        }
    }
    out
}

} // verus!
