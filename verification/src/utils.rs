//! Odds and ends: the case-insensitive directory-entry lookup that papers
//! over case-preserving file systems.

use vstd::prelude::*;

use vstd::utf8::encode_utf8;

verus! {

/// The ASCII-lowercase folding of one byte; bytes outside `A`..`Z` are
/// untouched, so multi-byte UTF-8 sequences pass through unchanged.
pub open spec fn lower_byte(b: u8) -> u8 {
    if 65 <= b <= 90 {
        (b + 32) as u8
    } else {
        b
    }
}

/// The ASCII-lowercase folding of a byte string.
pub open spec fn lower_bytes(s: Seq<u8>) -> Seq<u8> {
    s.map_values(|b: u8| lower_byte(b))
}

/// Whether two names are the same up to ASCII case.
pub open spec fn name_matches(entry: Seq<char>, name: Seq<char>) -> bool {
    lower_bytes(encode_utf8(entry)) == lower_bytes(encode_utf8(name))
}

fn lower_byte_exec(b: u8) -> (r: u8)
    ensures
        r == lower_byte(b),
{
    if 65 <= b && b <= 90 {
        b + 32
    } else {
        b
    }
}

/// Whether `a` equals the already-folded `lname` after folding.
fn folded_equals(a: &[u8], lname: &Vec<u8>) -> (r: bool)
    ensures
        r == (lower_bytes(a@) == lname@),
{
    if a.len() != lname.len() {
        proof {
            assert(lower_bytes(a@).len() == a@.len());
        }
        return false;
    }
    let n = lname.len();
    let mut i: usize = 0;
    while i < n
        invariant
            i <= n,
            n == a@.len(),
            a@.len() == lname@.len(),
            forall|q: int| 0 <= q < i ==> lower_byte(a@[q]) == #[trigger] lname@[q],
        decreases n - i,
    {
        let folded = lower_byte_exec(a[i]);
        if folded != lname[i] {
            proof {
                assert(lower_bytes(a@)[i as int] == lower_byte(a@[i as int]));
            }
            return false;
        }
        i += 1;
    }
    proof {
        assert(lower_bytes(a@) =~= lname@);
    }
    true
}

/// Finds the first directory entry whose name equals `name` up to ASCII
/// case, the way a case-preserving file system resolves names. The caller
/// reads the directory and hands the entry names in; the index of the
/// first match comes back.
pub fn fuck_you_windows(entries: &Vec<String>, name: &str) -> (r: Option<usize>)
    ensures
        match r {
            Some(i) => {
                &&& i < entries@.len()
                &&& name_matches(entries@[i as int]@, name@)
                &&& forall|j: int| 0 <= j < i ==> !name_matches(entries@[j]@, name@)
            },
            None => forall|j: int| 0 <= j < entries@.len() ==> !name_matches(entries@[j]@, name@),
        },
{
    let name_b = name.as_bytes();
    let mut lname: Vec<u8> = Vec::new();
    let mut t: usize = 0;
    let nb = name_b.len();
    while t < nb
        invariant
            t <= nb,
            nb == name_b@.len(),
            lname@.len() == t,
            forall|q: int| 0 <= q < t ==> #[trigger] lname@[q] == lower_byte(name_b@[q]),
        decreases nb - t,
    {
        lname.push(lower_byte_exec(name_b[t]));
        t += 1;
    }
    proof {
        assert(lname@ =~= lower_bytes(name_b@));
    }
    let n = entries.len();
    let mut i: usize = 0;
    while i < n
        invariant
            i <= n,
            n == entries@.len(),
            lname@ == lower_bytes(encode_utf8(name@)),
            forall|j: int| 0 <= j < i ==> !name_matches(entries@[j]@, name@),
        decreases n - i,
    {
        let e = entries[i].as_str().as_bytes();
        if folded_equals(e, &lname) {
            return Some(i);
        }
        i += 1;
    }
    None
}

} // verus!
