//! The paths of the files behind identifiers.
use vstd::prelude::*;
use vstd::string::*;

verus! {

/// The identifier for a path without extension: `.` in place of `/`.
pub open spec fn dotted(path: Seq<char>) -> Seq<char> {
    path.map_values(
        |c: char|
            if c == '/' {
                '.'
            } else {
                c
            },
    )
}

/// The path without extension for an identifier: `/` in place of `.`.
pub open spec fn slashed(id: Seq<char>) -> Seq<char> {
    id.map_values(
        |c: char|
            if c == '.' {
                '/'
            } else {
                c
            },
    )
}

/// What an extension adds to a path.
pub open spec fn suffix(ext: Seq<char>) -> Seq<char> {
    if ext.len() == 0 {
        Seq::empty()
    } else {
        seq!['.'] + ext
    }
}

/// The path, from the root of the source, of the file of the asset `id` with
/// the extension `ext`, or, without an extension, of the directory `id`.
pub fn asset_path(id: &str, ext: &str) -> (r: String)
    ensures
        r@ == slashed(id@) + suffix(ext@),
{
    proof {
        reveal_strlit("/");
        reveal_strlit(".");
    }
    let mut path = String::new();
    let n = id.unicode_len();
    let mut i: usize = 0;
    while i < n
        invariant
            i <= n,
            n == id@.len(),
            "/"@ =~= seq!['/'],
            path@ =~= slashed(id@).take(i as int),
        decreases n - i,
    {
        let c = id.get_char(i);
        if c == '.' {
            path.append("/");
        } else {
            path.append(id.substring_char(i, i + 1));
        }
        i += 1;
    }
    assert(slashed(id@).take(i as int) =~= slashed(id@));
    if !ext.is_empty() {
        path.append(".");
        path.append(ext);
    }
    assert(path@ =~= slashed(id@) + suffix(ext@));
    path
}

/// The identifier of the asset whose file has the path `path`, from the root
/// of the source and without the extension.
pub fn asset_id(path: &str) -> (r: String)
    ensures
        r@ == dotted(path@),
{
    proof {
        reveal_strlit(".");
    }
    let mut id = String::new();
    let n = path.unicode_len();
    let mut i: usize = 0;
    while i < n
        invariant
            i <= n,
            n == path@.len(),
            "."@ =~= seq!['.'],
            id@ =~= dotted(path@).take(i as int),
        decreases n - i,
    {
        let c = path.get_char(i);
        if c == '/' {
            id.append(".");
        } else {
            id.append(path.substring_char(i, i + 1));
        }
        i += 1;
    }
    assert(dotted(path@).take(i as int) =~= dotted(path@));
    id
}

/// An identifier is the path of its file with `.` in place of `/` and without
/// the extension. This needs that the identifier has no `/`.
pub proof fn law_identifiers_are_dotted_paths(id: Seq<char>, ext: Seq<char>)
    requires
        !id.contains('/'),
    ensures
        dotted((slashed(id) + suffix(ext)).take(slashed(id).len() as int)) == id,
{
    assert((slashed(id) + suffix(ext)).take(slashed(id).len() as int) =~= slashed(id));
    assert forall|i: int| 0 <= i < id.len() implies dotted(slashed(id))[i] == id[i] by {
        assert(id.contains(id[i]));
    }
    assert(dotted(slashed(id)) =~= id);
}

/// A file is found under the identifier made from its path if its name has no
/// `.` but that of the extension.
pub proof fn law_files_are_found(path: Seq<char>, ext: Seq<char>)
    requires
        !path.contains('.'),
    ensures
        slashed(dotted(path)) + suffix(ext) == path + suffix(ext),
{
    assert forall|i: int| 0 <= i < path.len() implies slashed(dotted(path))[i] == path[i] by {
        assert(path.contains(path[i]));
    }
    assert(slashed(dotted(path)) =~= path);
}

/// A path and its identifier agree in every character but `/` and `.`, which
/// take each other's place; an extension follows after a `.`, if there is one.
pub proof fn law_paths_and_identifiers_agree(
    path: Seq<char>,
    id: Seq<char>,
    ext: Seq<char>,
    i: int,
)
    ensures
        dotted(path).len() == path.len(),
        0 <= i < path.len() ==> dotted(path)[i] == (if path[i] == '/' {
            '.'
        } else {
            path[i]
        }),
        slashed(id).len() == id.len(),
        0 <= i < id.len() ==> slashed(id)[i] == (if id[i] == '.' {
            '/'
        } else {
            id[i]
        }),
        ext.len() == 0 ==> suffix(ext).len() == 0,
        ext.len() > 0 ==> suffix(ext).len() == ext.len() + 1 && suffix(ext)[0] == '.' && (0 <= i
            < ext.len() ==> suffix(ext)[i + 1] == ext[i]),
{
}

} // verus!
