use vstd::prelude::*;

use crate::entity::{app_namespace, APP_NAMESPACE};

verus! {

pub open spec fn decimal_digit(d: int) -> char {
    ('0' as int + d) as char
}

/// The decimal text of `n`, without leading zeros.
pub open spec fn decimal_text(n: nat) -> Seq<char>
    decreases n,
{
    if n < 10 {
        seq![decimal_digit(n as int)]
    } else {
        decimal_text(n / 10).push(decimal_digit((n % 10) as int))
    }
}

/// Appends the decimal text of `n` to `s`.
pub fn push_decimal(s: &mut String, n: u64)
    ensures
        final(s)@ == old(s)@ + decimal_text(n as nat),
    decreases n,
{
    if n >= 10 {
        push_decimal(s, n / 10);
    }
    let d = (n % 10) as usize;
    let table = "0123456789";
    proof {
        reveal_strlit("0123456789");
    }
    let digit = table.substring_char(d, d + 1);
    assert(digit@ =~= seq![decimal_digit(d as int)]);
    s.append(digit);
    assert(final(s)@ =~= old(s)@ + decimal_text(n as nat));
}

/// The query that selects the chunk entity with part number `part` of the
/// blob whose root entity has key text `root_key`.
pub open spec fn chunk_query_text(root_key: Seq<char>, part: u64) -> Seq<char> {
    "parent=\""@ + root_key + "\" && type=\"image_chunk\" && app=\""@ + app_namespace()
        + "\" && part="@ + decimal_text(part as nat)
}

/// Builds the query that finds chunk `part` of the blob rooted at `root_key`.
pub fn chunk_query(root_key: &str, part: u64) -> (r: String)
    ensures
        r@ == chunk_query_text(root_key@, part),
{
    let mut q = String::from_str("parent=\"");
    q.append(root_key);
    q.append("\" && type=\"image_chunk\" && app=\"");
    q.append(APP_NAMESPACE);
    q.append("\" && part=");
    push_decimal(&mut q, part);
    q
}

/// The query that selects every thumbnail of this application.
pub open spec fn thumbnails_query_text() -> Seq<char> {
    "type=\"thumbnail\" && app=\""@ + app_namespace() + "\""@
}

/// Builds the query that lists every thumbnail of this application.
pub fn thumbnails_query() -> (r: String)
    ensures
        r@ == thumbnails_query_text(),
{
    let mut q = String::from_str("type=\"thumbnail\" && app=\"");
    q.append(APP_NAMESPACE);
    q.append("\"");
    q
}

/// The query that selects thumbnails whose `tag` list holds `term` as one of
/// its comma-separated items: the whole list, its first item, its last item,
/// or an item in between.
pub open spec fn tag_query_text(term: Seq<char>) -> Seq<char> {
    thumbnails_query_text() + " && (tag~\""@ + term + "\" || (tag~\""@ + term + ",*\" || (tag~\"*,"@
        + term + "\" || tag~\"*,"@ + term + ",*\")))"@
}

/// Builds the search query for `term`.
pub fn tag_query(term: &str) -> (r: String)
    ensures
        r@ == tag_query_text(term@),
{
    let mut q = thumbnails_query();
    q.append(" && (tag~\"");
    q.append(term);
    q.append("\" || (tag~\"");
    q.append(term);
    q.append(",*\" || (tag~\"*,");
    q.append(term);
    q.append("\" || tag~\"*,");
    q.append(term);
    q.append(",*\")))");
    q
}

pub open spec fn occurs_at(hay: Seq<char>, pat: Seq<char>, at: int) -> bool {
    0 <= at && at + pat.len() <= hay.len() && hay.subrange(at, at + pat.len()) == pat
}

/// Whether `term` is one of the comma-separated items of the tag list `list`:
/// the whole list, a prefix ending in a comma, a suffix after a comma, or
/// enclosed by commas.
pub open spec fn tag_list_holds(list: Seq<char>, term: Seq<char>) -> bool {
    ||| list == term
    ||| occurs_at(list, term.push(','), 0)
    ||| occurs_at(list, seq![','] + term, list.len() - (term.len() + 1))
    ||| exists|i: int| occurs_at(list, seq![','] + term.push(','), i)
}

fn chars_of(s: &str) -> (r: Vec<char>)
    ensures
        r@ == s@,
{
    let n = s.unicode_len();
    let mut r: Vec<char> = Vec::new();
    let mut i: usize = 0;
    while i < n
        invariant
            n == s@.len(),
            i <= n,
            r@ == s@.take(i as int),
        decreases n - i,
    {
        r.push(s.get_char(i));
        i += 1;
        assert(r@ =~= s@.take(i as int));
    }
    assert(s@.take(n as int) =~= s@);
    r
}

fn matches_at(hay: &Vec<char>, pat: &Vec<char>, at: usize) -> (r: bool)
    ensures
        r == occurs_at(hay@, pat@, at as int),
{
    if pat.len() > hay.len() || at > hay.len() - pat.len() {
        return false;
    }
    let mut j: usize = 0;
    while j < pat.len()
        invariant
            at + pat.len() <= hay.len(),
            j <= pat.len(),
            forall|k: int| 0 <= k < j ==> hay@[at + k] == pat@[k],
        decreases pat.len() - j,
    {
        if hay[at + j] != pat[j] {
            assert(hay@.subrange(at as int, at + pat.len())[j as int] != pat@[j as int]);
            return false;
        }
        j += 1;
    }
    assert(hay@.subrange(at as int, at + pat.len()) =~= pat@);
    true
}

fn occurs_anywhere(hay: &Vec<char>, pat: &Vec<char>) -> (r: bool)
    ensures
        r == exists|i: int| occurs_at(hay@, pat@, i),
{
    if pat.len() > hay.len() {
        return false;
    }
    let last = hay.len() - pat.len();
    let mut i: usize = 0;
    while i < last
        invariant
            last == hay.len() - pat.len(),
            i <= last,
            forall|k: int| 0 <= k < i ==> !occurs_at(hay@, pat@, k),
        decreases last - i,
    {
        if matches_at(hay, pat, i) {
            return true;
        }
        i += 1;
    }
    matches_at(hay, pat, last)
}

/// Decides whether the tag list `list` holds `term` as one of its items, as
/// the search query does.
pub fn tag_list_matches(list: &str, term: &str) -> (r: bool)
    ensures
        r == tag_list_holds(list@, term@),
{
    let hay = chars_of(list);
    let t = chars_of(term);
    let mut leading = t.clone();
    leading.push(',');
    assert(leading@ =~= term@.push(','));
    let mut trailing: Vec<char> = Vec::new();
    trailing.push(',');
    let mut k: usize = 0;
    while k < t.len()
        invariant
            k <= t.len(),
            trailing@ == seq![','] + t@.take(k as int),
        decreases t.len() - k,
    {
        trailing.push(t[k]);
        k += 1;
        assert(trailing@ =~= seq![','] + t@.take(k as int));
    }
    assert(t@.take(k as int) =~= t@);
    let mut inner = trailing.clone();
    inner.push(',');
    assert(inner@ =~= seq![','] + term@.push(','));
    let whole = hay.len() == t.len() && matches_at(&hay, &t, 0);
    assert(whole == (list@ == term@)) by {
        if hay.len() == t.len() {
            assert(hay@.subrange(0, hay@.len() as int) =~= hay@);
        }
    }
    let suffix_at = if hay.len() >= trailing.len() {
        hay.len() - trailing.len()
    } else {
        0
    };
    let suffix = hay.len() >= trailing.len() && matches_at(&hay, &trailing, suffix_at);
    whole || matches_at(&hay, &leading, 0) || suffix || occurs_anywhere(&hay, &inner)
}

} // verus!
