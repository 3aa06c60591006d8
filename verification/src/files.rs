//! How an uploaded file is named and where it is kept: the SHA-256 digest of
//! its bytes in lower-case hex, the extension of the name the client gave,
//! and a path under the storage directory.

use vstd::prelude::*;
use sha2::{Digest, Sha256};
use crate::text::{split_from, split_on, joined, lemma_split_from_joins};

verus! {

// ---------------------------------------------------------------------------
// Extensions, as `std::path::Path::extension` finds them on Unix
// ---------------------------------------------------------------------------

/// A `/`-separated piece of a path that is a component of it: empty pieces
/// and `.` pieces are not.
pub open spec fn is_component(p: Seq<char>) -> bool {
    p.len() > 0 && p != seq!['.']
}

/// The components of a path, in order.
pub open spec fn components(path: Seq<char>) -> Seq<Seq<char>> {
    split_on(path, '/').filter(|p: Seq<char>| is_component(p))
}

/// The final component of a path, unless there is none or it is `..`.
pub open spec fn file_name_of(path: Seq<char>) -> Option<Seq<char>> {
    let c = components(path);
    if c.len() == 0 || c.last() == seq!['.', '.'] {
        None
    } else {
        Some(c.last())
    }
}

/// The index of the last `c` in `s`, or -1.
pub open spec fn last_index_of(s: Seq<char>, c: char) -> int
    decreases s.len(),
{
    if s.len() == 0 {
        -1
    } else if s.last() == c {
        s.len() - 1
    } else {
        last_index_of(s.drop_last(), c)
    }
}

/// The extension of a file name: what follows its final `.`, unless the name
/// has no `.` or its only `.` is the first character.
pub open spec fn extension_of_name(name: Seq<char>) -> Option<Seq<char>> {
    let k = last_index_of(name, '.');
    if k <= 0 {
        None
    } else {
        Some(name.subrange(k + 1, name.len() as int))
    }
}

/// The extension of a path: that of its file name, if it has one.
pub open spec fn path_extension_of(path: Seq<char>) -> Option<Seq<char>> {
    match file_name_of(path) {
        Some(name) => extension_of_name(name),
        None => None,
    }
}

proof fn lemma_components_push(done: Seq<Seq<char>>, p: Seq<char>)
    ensures
        done.push(p).filter(|p: Seq<char>| is_component(p)) == if is_component(p) {
            done.filter(|p: Seq<char>| is_component(p)).push(p)
        } else {
            done.filter(|p: Seq<char>| is_component(p))
        },
{
    done.lemma_filter_push(p, |p: Seq<char>| is_component(p));
}

/// Where the last component of a path seen so far lies: `last` holds its
/// bounds whenever `done` has a component.
pub open spec fn last_component_at(
    path: Seq<char>,
    done: Seq<Seq<char>>,
    last: Option<(usize, usize)>,
) -> bool {
    let c = done.filter(|p: Seq<char>| is_component(p));
    match last {
        Some((a, b)) => c.len() > 0 && a <= b <= path.len() && path.subrange(a as int, b as int)
            == c.last(),
        None => c.len() == 0,
    }
}

/// Whether `path[a..b]` is a component.
fn piece_is_component(path: &str, a: usize, b: usize) -> (r: bool)
    requires
        a <= b <= path@.len(),
    ensures
        r == is_component(path@.subrange(a as int, b as int)),
{
    let ghost p = path@.subrange(a as int, b as int);
    if a == b {
        false
    } else if b - a == 1 && path.get_char(a) == '.' {
        assert(p =~= seq!['.']);
        false
    } else {
        assert(p.len() != 1 || p[0] != '.');
        true
    }
}

/// The bounds of the file name of `path` within it.
fn file_name_bounds(path: &str) -> (r: Option<(usize, usize)>)
    ensures
        match r {
            Some((a, b)) => a <= b <= path@.len() && file_name_of(path@) == Some(
                path@.subrange(a as int, b as int),
            ),
            None => file_name_of(path@) is None,
        },
{
    let n = path.unicode_len();
    let mut last: Option<(usize, usize)> = None;
    let mut start: usize = 0;
    let mut i: usize = 0;
    let ghost mut done: Seq<Seq<char>> = Seq::empty();
    assert(done + split_from(path@, '/', 0, 0) =~= split_from(path@, '/', 0, 0));
    assert(done.filter(|p: Seq<char>| is_component(p)) =~= Seq::empty()) by {
        reveal_with_fuel(Seq::filter, 1);
    }
    while i < n
        invariant
            n == path@.len(),
            start <= i <= n,
            split_on(path@, '/') == done + split_from(path@, '/', start as int, i as int),
            last_component_at(path@, done, last),
        decreases n - i,
    {
        if path.get_char(i) == '/' {
            let ghost piece = path@.subrange(start as int, i as int);
            proof {
                lemma_components_push(done, piece);
                assert(done + split_from(path@, '/', start as int, i as int) =~= done.push(piece)
                    + split_from(path@, '/', i + 1, i + 1));
            }
            if piece_is_component(path, start, i) {
                last = Some((start, i));
            }
            proof { done = done.push(piece); }
            start = i + 1;
        }
        i = i + 1;
    }
    let ghost piece = path@.subrange(start as int, n as int);
    proof {
        lemma_components_push(done, piece);
        assert(done + split_from(path@, '/', start as int, n as int) =~= done.push(piece));
    }
    if piece_is_component(path, start, n) {
        last = Some((start, n));
    }
    proof { done = done.push(piece); }
    match last {
        None => None,
        Some((a, b)) => {
            if b - a == 2 && path.get_char(a) == '.' && path.get_char(a + 1) == '.' {
                assert(path@.subrange(a as int, b as int) =~= seq!['.', '.']);
                None
            } else {
                let ghost name = path@.subrange(a as int, b as int);
                assert(name.len() != 2 || name[0] != '.' || name[1] != '.');
                assert(name != seq!['.', '.']);
                Some((a, b))
            }
        },
    }
}

/// The extension of `path`, as `std::path::Path::extension` gives it on
/// Unix: `cat.jpg` gives `jpg`, `a.tar.gz` gives `gz`, `.bashrc` and
/// `README` give none, `x.` gives the empty extension.
pub fn path_extension(path: &str) -> (ext: Option<String>)
    ensures
        match ext {
            Some(e) => path_extension_of(path@) == Some(e@),
            None => path_extension_of(path@) is None,
        },
{
    match file_name_bounds(path) {
        None => None,
        Some((a, b)) => {
            let ghost name = path@.subrange(a as int, b as int);
            let mut j: usize = b;
            assert(path@.subrange(a as int, b as int) =~= name);
            while j > a && path.get_char(j - 1) != '.'
                invariant
                    a <= j <= b <= path@.len(),
                    name == path@.subrange(a as int, b as int),
                    last_index_of(name, '.') == last_index_of(
                        path@.subrange(a as int, j as int),
                        '.',
                    ),
                decreases j,
            {
                assert(path@.subrange(a as int, j as int).drop_last() =~= path@.subrange(
                    a as int,
                    j - 1,
                ));
                j = j - 1;
            }
            // `j - 1` is the index of the last `.` when `j > a`.
            if j <= a + 1 {
                None
            } else {
                assert(last_index_of(path@.subrange(a as int, j as int), '.') == j - 1 - a);
                assert(name.subrange(j - a, name.len() as int) =~= path@.subrange(
                    j as int,
                    b as int,
                ));
                Some(path.substring_char(j, b).to_owned())
            }
        },
    }
}

proof fn lemma_split_pieces_lack_sep(s: Seq<char>, sep: char, start: int, i: int)
    requires
        0 <= start <= i <= s.len(),
        forall|k: int| start <= k < i ==> s[k] != sep,
    ensures
        forall|j: int|
            0 <= j < split_from(s, sep, start, i).len() ==> !(#[trigger] split_from(
                s,
                sep,
                start,
                i,
            )[j]).contains(sep),
    decreases s.len() - i,
{
    if i >= s.len() {
        let p = s.subrange(start, s.len() as int);
        assert forall|k: int| 0 <= k < p.len() implies p[k] != sep by {
            assert(p[k] == s[start + k]);
        }
        assert(split_from(s, sep, start, i) == seq![p]);
        assert(!p.contains(sep));
    } else if s[i] == sep {
        lemma_split_pieces_lack_sep(s, sep, i + 1, i + 1);
        let p = s.subrange(start, i);
        assert forall|k: int| 0 <= k < p.len() implies p[k] != sep by {
            assert(p[k] == s[start + k]);
        }
        let rest = split_from(s, sep, i + 1, i + 1);
        assert forall|j: int| 0 <= j < split_from(s, sep, start, i).len() implies !(
        #[trigger] split_from(s, sep, start, i)[j]).contains(sep) by {
            if j > 0 {
                assert(split_from(s, sep, start, i)[j] == rest[j - 1]);
            } else {
                assert(split_from(s, sep, start, i)[j] == p);
                assert(!p.contains(sep));
            }
        }
    } else {
        lemma_split_pieces_lack_sep(s, sep, start, i + 1);
        assert(split_from(s, sep, start, i) == split_from(s, sep, start, i + 1));
    }
}

/// Splitting at a separator yields at least one piece, no piece holds the
/// separator, and the pieces joined with it give back the text: the pieces
/// are exactly the stretches between separators.
pub proof fn lemma_split_on_pieces(s: Seq<char>, sep: char)
    ensures
        split_on(s, sep).len() > 0,
        joined(split_on(s, sep), sep) == s,
        forall|j: int|
            0 <= j < split_on(s, sep).len() ==> !(#[trigger] split_on(s, sep)[j]).contains(sep),
{
    lemma_split_from_joins(s, sep, 0, 0);
    lemma_split_pieces_lack_sep(s, sep, 0, 0);
    assert(s.subrange(0, s.len() as int) =~= s);
}

proof fn lemma_last_index_of(s: Seq<char>, c: char)
    ensures
        -1 <= last_index_of(s, c) < s.len(),
        last_index_of(s, c) >= 0 ==> s[last_index_of(s, c)] == c,
        forall|j: int| last_index_of(s, c) < j < s.len() ==> s[j] != c,
    decreases s.len(),
{
    if s.len() > 0 && s.last() != c {
        lemma_last_index_of(s.drop_last(), c);
        assert forall|j: int| last_index_of(s, c) < j < s.len() implies s[j] != c by {
            if j < s.len() - 1 {
                assert(s[j] == s.drop_last()[j]);
            }
        }
    }
}

/// An extension never holds a `/` or a `.`.
pub proof fn lemma_extension_shape(path: Seq<char>)
    ensures
        path_extension_of(path) matches Some(e) ==> !e.contains('/') && !e.contains('.'),
{
    if let Some(name) = file_name_of(path) {
        let c = components(path);
        let pieces = split_on(path, '/');
        assert(c.contains(name)) by {
            assert(c[c.len() - 1] == name);
        }
        pieces.lemma_filter_contains_rev(|p: Seq<char>| is_component(p), name);
        lemma_split_pieces_lack_sep(path, '/', 0, 0);
        let j = choose|j: int| 0 <= j < pieces.len() && pieces[j] == name;
        assert(!pieces[j].contains('/'));
        lemma_last_index_of(name, '.');
        let k = last_index_of(name, '.');
        if k > 0 {
            let e = name.subrange(k + 1, name.len() as int);
            assert forall|i: int| 0 <= i < e.len() implies e[i] != '/' && e[i] != '.' by {
                assert(e[i] == name[k + 1 + i]);
            }
        }
    }
}

/// The extension under which an upload is stored: that of the name the
/// client gave (`unknown.bin` when it gave none), else `bin`.
pub open spec fn upload_extension_of(file_name: Option<Seq<char>>) -> Seq<char> {
    let name = match file_name {
        Some(n) => n,
        None => "unknown.bin"@,
    };
    match path_extension_of(name) {
        Some(e) => e,
        None => "bin"@,
    }
}

/// The extension under which an upload is stored.
pub fn upload_extension(file_name: Option<&str>) -> (ext: String)
    ensures
        ext@ == upload_extension_of(
            match file_name {
                Some(n) => Some(n@),
                None => None,
            },
        ),
{
    let name = match file_name {
        Some(n) => n,
        None => "unknown.bin",
    };
    match path_extension(name) {
        Some(e) => e,
        None => "bin".to_owned(),
    }
}

/// An upload's extension never holds a `/` or a `.`.
pub proof fn lemma_upload_extension_shape(file_name: Option<Seq<char>>)
    ensures
        !upload_extension_of(file_name).contains('/'),
        !upload_extension_of(file_name).contains('.'),
{
    reveal_strlit("bin");
    let name = match file_name {
        Some(n) => n,
        None => "unknown.bin"@,
    };
    lemma_extension_shape(name);
    if path_extension_of(name) is None {
        assert(!"bin"@.contains('/'));
        assert(!"bin"@.contains('.'));
    }
}

proof fn lemma_split_without_sep(s: Seq<char>, sep: char, start: int, i: int)
    requires
        0 <= start <= i <= s.len(),
        forall|k: int| i <= k < s.len() ==> s[k] != sep,
    ensures
        split_from(s, sep, start, i) == seq![s.subrange(start, s.len() as int)],
    decreases s.len() - i,
{
    if i < s.len() {
        lemma_split_without_sep(s, sep, start, i + 1);
    }
}

proof fn lemma_last_dot_before(a: Seq<char>, e: Seq<char>)
    requires
        !e.contains('.'),
    ensures
        last_index_of(a + seq!['.'] + e, '.') == a.len(),
    decreases e.len(),
{
    if e.len() == 0 {
        assert(a + seq!['.'] + e =~= a.push('.'));
    } else {
        assert(e[e.len() - 1] != '.');
        assert(!e.drop_last().contains('.')) by {
            assert forall|i: int| 0 <= i < e.drop_last().len() implies e.drop_last()[i] != '.' by {
                assert(e.drop_last()[i] == e[i]);
            }
        }
        lemma_last_dot_before(a, e.drop_last());
        assert((a + seq!['.'] + e).drop_last() =~= a + seq!['.'] + e.drop_last());
    }
}

/// The extension of a plain file name `stem.e` is `e`, where the stem is not
/// empty and holds no `/`, and `e` holds no `.` or `/`, whatever its length
/// (only `..` itself has no extension).
pub proof fn lemma_extension_of_plain_name(stem: Seq<char>, e: Seq<char>)
    requires
        stem.len() > 0,
        !stem.contains('/'),
        !e.contains('/'),
        !e.contains('.'),
        !(stem == seq!['.'] && e.len() == 0),
    ensures
        path_extension_of(stem + seq!['.'] + e) == Some(e),
{
    let name = stem + seq!['.'] + e;
    assert forall|k: int| 0 <= k < name.len() implies name[k] != '/' by {
        if k < stem.len() {
            assert(name[k] == stem[k]);
        } else if k > stem.len() {
            assert(name[k] == e[k - stem.len() - 1]);
        }
    }
    lemma_split_without_sep(name, '/', 0, 0);
    assert(name.subrange(0, name.len() as int) =~= name);
    assert(is_component(name)) by {
        if name == seq!['.'] {
            assert(name.len() == 1);
        }
    }
    assert(seq![name] =~= Seq::<Seq<char>>::empty().push(name));
    Seq::<Seq<char>>::empty().lemma_filter_push(name, |p: Seq<char>| is_component(p));
    assert(Seq::<Seq<char>>::empty().filter(|p: Seq<char>| is_component(p)) =~= Seq::empty()) by {
        reveal_with_fuel(Seq::filter, 1);
    }
    assert(components(name) =~= seq![name]);
    assert(name != seq!['.', '.']) by {
        if name == seq!['.', '.'] {
            assert(stem.len() == 1 && e.len() == 0);
            assert(name[0] == stem[0]);
            assert(stem =~= seq!['.']);
        }
    }
    lemma_last_dot_before(stem, e);
    assert(name.subrange((stem.len() + 1) as int, name.len() as int) =~= e);
}

/// An upload keeps the extension of the file name that the client gave,
/// whatever it is; it is `bin` only when that name has none, or when the
/// client gave no name.
pub proof fn lemma_upload_extension_follows_name(n: Seq<char>)
    ensures
        path_extension_of(n) matches Some(e) ==> upload_extension_of(Some(n)) == e,
        path_extension_of(n) is None ==> upload_extension_of(Some(n)) == "bin"@,
        upload_extension_of(None) == "bin"@,
{
    reveal_strlit("unknown.bin");
    reveal_strlit("unknown");
    reveal_strlit("bin");
    assert("unknown.bin"@ =~= "unknown"@ + seq!['.'] + "bin"@);
    assert(!"unknown"@.contains('/'));
    assert(!"bin"@.contains('/'));
    assert(!"bin"@.contains('.'));
    assert("unknown"@ != seq!['.']) by {
        assert("unknown"@.len() == 7);
    }
    lemma_extension_of_plain_name("unknown"@, "bin"@);
}

/// A client name `stem.e` is stored with the extension `e`, whatever its
/// length.
pub proof fn lemma_upload_keeps_client_extension(stem: Seq<char>, e: Seq<char>)
    requires
        stem.len() > 0,
        !stem.contains('/'),
        !e.contains('/'),
        !e.contains('.'),
        !(stem == seq!['.'] && e.len() == 0),
    ensures
        upload_extension_of(Some(stem + seq!['.'] + e)) == e,
{
    lemma_extension_of_plain_name(stem, e);
}

// ---------------------------------------------------------------------------
// Content names: SHA-256 in lower-case hex
// ---------------------------------------------------------------------------

/// The SHA-256 digest of `data`.
pub uninterp spec fn sha256_of(data: Seq<u8>) -> Seq<u8>;

/// Calls `sha2::Sha256::digest` (the `digest::Digest` provided method that
/// runs `new`, `update` and `finalize`). Claimed: the result is the SHA-256
/// digest of `data` and is 32 bytes long (the output size of `Sha256`).
#[verifier::external_body]
fn sha256_digest(data: &[u8]) -> (digest: Vec<u8>)
    ensures
        digest@ == sha256_of(data@),
        digest@.len() == 32,
{
    Sha256::digest(data).to_vec()
}

/// The lower-case hex digit of `n`, for `n` below 16.
pub open spec fn hex_digit(n: int) -> char {
    if n < 10 {
        (48 + n) as char
    } else {
        (87 + n) as char
    }
}

/// The lower-case hex encoding of `bytes`: two digits per byte, the high
/// half first.
pub open spec fn hex_lower(bytes: Seq<u8>) -> Seq<char>
    decreases bytes.len(),
{
    if bytes.len() == 0 {
        Seq::empty()
    } else {
        hex_lower(bytes.drop_last()) + seq![
            hex_digit(bytes.last() as int / 16),
            hex_digit(bytes.last() as int % 16),
        ]
    }
}

/// Calls `hex::encode`. Claimed: the result is `data` in lower-case hex,
/// two digits per byte with the high half first (the crate's table
/// `0123456789abcdef`).
#[verifier::external_body]
fn hex_encode(data: &[u8]) -> (s: String)
    ensures
        s@ == hex_lower(data@),
{
    hex::encode(data)
}

/// Whether `c` is a lower-case hex digit.
pub open spec fn is_lower_hex(c: char) -> bool {
    ('0' <= c <= '9') || ('a' <= c <= 'f')
}

/// The hex encoding of `n` bytes is `2 * n` lower-case hex digits.
pub proof fn lemma_hex_lower_shape(bytes: Seq<u8>)
    ensures
        hex_lower(bytes).len() == 2 * bytes.len(),
        forall|i: int| 0 <= i < hex_lower(bytes).len() ==> is_lower_hex(#[trigger] hex_lower(bytes)[i]),
    decreases bytes.len(),
{
    if bytes.len() > 0 {
        lemma_hex_lower_shape(bytes.drop_last());
        let hi = bytes.last() / 16;
        let lo = bytes.last() % 16;
        assert(is_lower_hex(hex_digit(hi as int)));
        assert(is_lower_hex(hex_digit(lo as int)));
    }
}

/// The name under which content is stored: the SHA-256 digest of its bytes
/// in lower-case hex.
pub open spec fn content_name_of(data: Seq<u8>) -> Seq<char> {
    hex_lower(sha256_of(data))
}

/// The name under which `data` is stored: 64 lower-case hex digits of its
/// SHA-256 digest.
pub fn content_hash(data: &[u8]) -> (name: String)
    ensures
        name@ == content_name_of(data@),
        name@.len() == 64,
        forall|i: int| 0 <= i < name@.len() ==> is_lower_hex(#[trigger] name@[i]),
{
    let digest = sha256_digest(data);
    proof { lemma_hex_lower_shape(digest@); }
    hex_encode(digest.as_slice())
}

// ---------------------------------------------------------------------------
// Paths
// ---------------------------------------------------------------------------

/// `name.ext` below the storage directory.
pub open spec fn storage_path_of(name: Seq<char>, ext: Seq<char>) -> Seq<char> {
    "storage/"@ + name + "."@ + ext
}

/// The address of the public images route, as the service documents it.
pub const IMAGES_URL: &'static str = "http://localhost:1234/images/";

/// `name.ext` below the public images route.
pub open spec fn image_url_of(name: Seq<char>, ext: Seq<char>) -> Seq<char> {
    IMAGES_URL@ + name + "."@ + ext
}

/// The path of the stored file `name.ext`.
pub fn storage_path(name: &str, ext: &str) -> (path: String)
    ensures
        path@ == storage_path_of(name@, ext@),
{
    let mut path = "storage/".to_owned();
    path.append(name);
    path.append(".");
    path.append(ext);
    path
}

/// The public URL of the stored file `name.ext`.
pub fn image_url(name: &str, ext: &str) -> (url: String)
    ensures
        url@ == image_url_of(name@, ext@),
{
    let mut url = IMAGES_URL.to_owned();
    url.append(name);
    url.append(".");
    url.append(ext);
    url
}

} // verus!
