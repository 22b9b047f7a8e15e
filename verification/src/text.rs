//! Comparing and building the strings that name assets.
use vstd::prelude::*;
use vstd::string::*;
use vstd::utf8::*;

verus! {

/// Two strings are equal exactly if their UTF-8 encodings are.
pub proof fn lemma_encoding_tells_strings_apart(a: Seq<char>, b: Seq<char>)
    ensures
        encode_utf8(a) == encode_utf8(b) <==> a == b,
{
    encode_utf8_decode_utf8(a);
    encode_utf8_decode_utf8(b);
}

/// Whether two strings hold the same characters.
pub fn str_eq(a: &str, b: &str) -> (r: bool)
    ensures
        r == (a@ == b@),
{
    let x = a.as_bytes();
    let y = b.as_bytes();
    proof {
        lemma_encoding_tells_strings_apart(a@, b@);
    }
    if x.len() != y.len() {
        return false;
    }
    let mut i: usize = 0;
    while i < x.len()
        invariant
            i <= x@.len(),
            x@.len() == y@.len(),
            forall|j: int| 0 <= j < i ==> x@[j] == y@[j],
            x@ == y@ <==> a@ == b@,
        decreases x@.len() - i,
    {
        if x[i] != y[i] {
            return false;
        }
        i += 1;
    }
    assert(x@ =~= y@);
    true
}

/// The identifier of the entry `name` of the directory `dir`; the empty
/// string is the root.
pub open spec fn child_id(dir: Seq<char>, name: Seq<char>) -> Seq<char> {
    if dir.len() == 0 {
        name
    } else {
        dir + seq!['.'] + name
    }
}

/// Builds the identifier of the entry `name` of the directory `dir`.
pub fn join_id(dir: &str, name: &str) -> (r: String)
    ensures
        r@ == child_id(dir@, name@),
{
    if dir.is_empty() {
        name.to_owned()
    } else {
        proof {
            reveal_strlit(".");
        }
        let mut id = dir.to_owned();
        id.append(".");
        id.append(name);
        assert(id@ =~= child_id(dir@, name@));
        id
    }
}

} // verus!
