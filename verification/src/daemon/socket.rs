//! The path of a workspace's daemon socket:
//! `<cache dir>/lspz/<slug>-<hash>.sock`, where the slug is the last
//! component of the canonical workspace root and the hash its 64-bit hash in
//! sixteen hexadecimal digits. The same canonical root always gives the same
//! socket.
use vstd::prelude::*;

use std::hash::{Hash, Hasher};

use crate::text::{chars_of, push_char, push_str, string_of_range};

verus! {

/// What `DefaultHasher` (created with `DefaultHasher::new`) gives for a
/// string hashed with `Hash::hash`.
pub uninterp spec fn default_hash(s: Seq<char>) -> u64;

/// `DefaultHasher::new`, `str::hash` and `Hasher::finish`: the standard
/// library's default hash of a string. The hash algorithm is not stated
/// here, only that the result is the named hash of the text.
#[verifier::external_body]
fn default_hash_of(s: &str) -> (r: u64)
    ensures
        r == default_hash(s@),
{
    let mut hasher = std::collections::hash_map::DefaultHasher::new();
    s.hash(&mut hasher);
    hasher.finish()
}

/// The default hash of a string: the same text always gives the same hash.
pub fn hash_string(s: &str) -> (r: u64)
    ensures
        r == default_hash(s@),
{
    default_hash_of(s)
}

/// The index of the last `/` in `s`, or -1.
pub open spec fn last_slash(s: Seq<char>) -> int
    decreases s.len(),
{
    if s.len() == 0 {
        -1
    } else if s.last() == '/' {
        s.len() - 1
    } else {
        last_slash(s.drop_last())
    }
}

pub proof fn lemma_last_slash_range(s: Seq<char>)
    ensures
        -1 <= last_slash(s) < s.len(),
        last_slash(s) >= 0 ==> s[last_slash(s)] == '/',
        s.len() > 0 && s.last() != '/' ==> last_slash(s) < s.len() - 1,
    decreases s.len(),
{
    if s.len() > 0 && s.last() != '/' {
        lemma_last_slash_range(s.drop_last());
    }
}

/// The last component of a path, as `Path::file_name` gives it: trailing
/// slashes and `.` components are skipped; none when the path ends in `..`
/// or has no component.
pub open spec fn file_name(s: Seq<char>) -> Option<Seq<char>>
    decreases s.len(),
{
    if s.len() == 0 {
        None
    } else if s.last() == '/' {
        file_name(s.drop_last())
    } else {
        let k = last_slash(s);
        let seg = s.subrange(k + 1, s.len() as int);
        if seg == seq!['.'] {
            proof {
                lemma_last_slash_range(s);
            }
            file_name(s.take(k + 1))
        } else if seg == seq!['.', '.'] {
            None
        } else {
            Some(seg)
        }
    }
}

/// The slug of a workspace root: its last component, or `unknown`.
pub open spec fn spec_slug(path: Seq<char>) -> Seq<char> {
    match file_name(path) {
        Some(n) => n,
        None => "unknown"@,
    }
}

proof fn lemma_last_slash(s: Seq<char>, k: int)
    requires
        -1 <= k < s.len(),
        k >= 0 ==> s[k] == '/',
        forall|i: int| k < i < s.len() ==> s[i] != '/',
    ensures
        last_slash(s) == k,
    decreases s.len(),
{
    if s.len() > 0 && s.last() != '/' {
        lemma_last_slash(s.drop_last(), k);
    }
}

/// The last component of a workspace root, or `unknown` when it has none.
pub fn workspace_slug(path: &str) -> (r: String)
    ensures
        r@ == spec_slug(path@),
{
    let v = chars_of(path);
    let mut j: usize = v.len();
    proof {
        assert(v@.take(j as int) =~= v@);
    }
    loop
        invariant
            0 <= j <= v.len(),
            v@ == path@,
            file_name(v@) == file_name(v@.take(j as int)),
        decreases j,
    {
        if j == 0 {
            proof {
                assert(v@.take(0) =~= Seq::<char>::empty());
            }
            return "unknown".to_owned();
        }
        if v[j - 1] == '/' {
            proof {
                assert(v@.take(j as int).drop_last() =~= v@.take(j - 1));
            }
            j = j - 1;
        } else {
            let mut k: usize = j - 1;
            while k > 0 && v[k - 1] != '/'
                invariant
                    0 <= k < j <= v.len(),
                    forall|i: int| k <= i < j ==> v@[i] != '/',
                decreases k,
            {
                k = k - 1;
            }
            let ghost t = v@.take(j as int);
            proof {
                if k > 0 {
                    lemma_last_slash(t, k - 1);
                } else {
                    lemma_last_slash(t, -1);
                }
                assert(t.subrange(last_slash(t) + 1, t.len() as int) =~= v@.subrange(k as int, j as int));
            }
            let len = j - k;
            if len == 1 && v[k] == '.' {
                proof {
                    assert(v@.subrange(k as int, j as int) =~= seq!['.']);
                    assert(t.take(last_slash(t) + 1) =~= v@.take(k as int));
                }
                j = k;
            } else if len == 2 && v[k] == '.' && v[k + 1] == '.' {
                proof {
                    assert(v@.subrange(k as int, j as int) =~= seq!['.', '.']);
                }
                return "unknown".to_owned();
            } else {
                proof {
                    if v@.subrange(k as int, j as int) == seq!['.'] {
                        assert(v@.subrange(k as int, j as int)[0] == v@[k as int]);
                    }
                    if v@.subrange(k as int, j as int) == seq!['.', '.'] {
                        assert(v@.subrange(k as int, j as int)[0] == v@[k as int]);
                        assert(v@.subrange(k as int, j as int)[1] == v@[k + 1]);
                    }
                }
                return string_of_range(&v, k, j);
            }
        }
    }
}

/// The sixteen hexadecimal digits (lowercase, zero-padded) of a 64-bit number.
pub open spec fn hex16(n: u64) -> Seq<char> {
    Seq::new(16, |i: int| hex_digit(((n as int) / pow16(15 - i)) % 16))
}

/// 16 to the power `e`.
pub open spec fn pow16(e: int) -> int
    decreases e,
{
    if e <= 0 {
        1
    } else {
        16 * pow16(e - 1)
    }
}

/// The lowercase hexadecimal digit of a number below 16.
pub open spec fn hex_digit(d: int) -> char {
    if d < 10 {
        ('0' as int + d) as char
    } else {
        ('a' as int + d - 10) as char
    }
}

fn hex_char(d: u64) -> (c: char)
    requires
        d < 16,
    ensures
        c == hex_digit(d as int),
{
    if d == 0 { '0' } else if d == 1 { '1' } else if d == 2 { '2' } else if d == 3 { '3' } else if d == 4 {
        '4'
    } else if d == 5 { '5' } else if d == 6 { '6' } else if d == 7 { '7' } else if d == 8 { '8' } else if d
        == 9 { '9' } else if d == 10 { 'a' } else if d == 11 { 'b' } else if d == 12 { 'c' } else if d == 13 {
        'd'
    } else if d == 14 { 'e' } else { 'f' }
}

proof fn lemma_pow16_shift(i: int)
    requires
        0 <= i <= 15,
    ensures
        pow16(i) > 0,
        (i > 0 ==> pow16(i) == 16 * pow16(i - 1)),
    decreases i,
{
    if i > 0 {
        lemma_pow16_shift(i - 1);
    }
}

/// Appends the sixteen hexadecimal digits of `n`.
pub fn push_hex16(out: &mut String, n: u64)
    ensures
        final(out)@ == old(out)@ + hex16(n),
{
    let mut digits: [char; 16] = ['0'; 16];
    let mut m: u64 = n;
    let mut i: usize = 16;
    let ghost start = old(out)@;
    while i > 0
        invariant
            0 <= i <= 16,
            m as int == (n as int) / pow16(16 - i),
            forall|k: int| i <= k < 16 ==> digits@[k] == hex_digit(((n as int) / pow16(15 - k)) % 16),
        decreases i,
    {
        proof {
            lemma_pow16_shift(16 - i);
            lemma_pow16_shift(15 - (i - 1));
            let p = pow16(16 - i);
            assert(pow16(16 - (i - 1)) == 16 * p);
            assert(((n as int) / p) / 16 == (n as int) / (16 * p)) by (nonlinear_arith)
                requires
                    p > 0,
                    n >= 0,
            ;
        }
        let d = m % 16;
        digits[i - 1] = hex_char(d);
        m = m / 16;
        i = i - 1;
    }
    let mut k: usize = 0;
    while k < 16
        invariant
            0 <= k <= 16,
            forall|j: int| 0 <= j < 16 ==> digits@[j] == hex_digit(((n as int) / pow16(15 - j)) % 16),
            out@ == start + hex16(n).take(k as int),
        decreases 16 - k,
    {
        push_char(out, digits[k]);
        k = k + 1;
        assert(out@ =~= start + hex16(n).take(k as int));
    }
    proof {
        assert(hex16(n).take(16) =~= hex16(n));
    }
}

/// The file name of a workspace's socket: `<slug>-<hash>.sock`.
pub open spec fn spec_socket_file(canonical_root: Seq<char>) -> Seq<char> {
    spec_slug(canonical_root) + "-"@ + hex16(default_hash(canonical_root)) + ".sock"@
}

/// A path joined with a component, with one `/` between them.
pub open spec fn join_path(dir: Seq<char>, name: Seq<char>) -> Seq<char> {
    if dir.len() > 0 && dir.last() == '/' {
        dir + name
    } else {
        dir + "/"@ + name
    }
}

/// The path of a workspace's socket: `<cache dir>/lspz/<slug>-<hash>.sock`.
pub open spec fn spec_socket_path(canonical_root: Seq<char>, cache_dir: Seq<char>) -> Seq<char> {
    join_path(join_path(cache_dir, "lspz"@), spec_socket_file(canonical_root))
}

/// Appends a path component with one `/` before it.
fn push_component(path: &mut String, name: &str)
    ensures
        final(path)@ == join_path(old(path)@, name@),
{
    let v = chars_of(path.as_str());
    if v.len() > 0 && v[v.len() - 1] == '/' {
        push_str(path, name);
    } else {
        push_str(path, "/");
        push_str(path, name);
    }
}

/// The path of the daemon socket of a workspace, from its canonical root and
/// the user's cache directory.
pub fn socket_path_for_workspace(canonical_root: &str, cache_dir: &str) -> (r: String)
    ensures
        r@ == spec_socket_path(canonical_root@, cache_dir@),
{
    let hash = hash_string(canonical_root);
    let slug = workspace_slug(canonical_root);
    let mut file = slug;
    push_str(&mut file, "-");
    push_hex16(&mut file, hash);
    push_str(&mut file, ".sock");
    let mut path = cache_dir.to_owned();
    push_component(&mut path, "lspz");
    push_component(&mut path, file.as_str());
    proof {
        assert(file@ =~= spec_socket_file(canonical_root@));
    }
    path
}

/// Roots with different slugs get different sockets, whatever the cache
/// directory; and since the path is a spec function of the canonical root
/// and the cache directory, the same root always gets the same socket.
pub proof fn lemma_socket_path_distinct(r1: Seq<char>, r2: Seq<char>, cache_dir: Seq<char>)
    ensures
        spec_slug(r1) != spec_slug(r2) ==> spec_socket_path(r1, cache_dir) != spec_socket_path(r2, cache_dir),
        r1 == r2 ==> spec_socket_path(r1, cache_dir) == spec_socket_path(r2, cache_dir),
{
    reveal_strlit("lspz");
    reveal_strlit("/");
    reveal_strlit("-");
    reveal_strlit(".sock");
    let j = join_path(cache_dir, "lspz"@);
    assert(j.len() > 0 && j.last() == 'z');
    let f1 = spec_socket_file(r1);
    let f2 = spec_socket_file(r2);
    let s1 = spec_slug(r1);
    let s2 = spec_slug(r2);
    assert(hex16(default_hash(r1)).len() == 16);
    assert(hex16(default_hash(r2)).len() == 16);
    assert(f1.len() == s1.len() + 22);
    assert(f2.len() == s2.len() + 22);
    let p1 = spec_socket_path(r1, cache_dir);
    let p2 = spec_socket_path(r2, cache_dir);
    assert(p1 == j + "/"@ + f1);
    assert(p2 == j + "/"@ + f2);
    if p1 == p2 && s1 != s2 {
        let n = j.len() + 1;
        assert(p1.skip(n as int) =~= f1);
        assert(p2.skip(n as int) =~= f2);
        assert(f1 == f2);
        assert(s1.len() == s2.len());
        assert(f1.take(s1.len() as int) =~= s1);
        assert(f2.take(s2.len() as int) =~= s2);
    }
}

/// Trailing slashes do not change a root's slug.
pub proof fn lemma_slug_trailing_slash(r: Seq<char>)
    ensures
        spec_slug(r + "/"@) == spec_slug(r),
{
    reveal_strlit("/");
    let s = r + "/"@;
    assert(s.last() == '/');
    assert(s.drop_last() =~= r);
}

} // verus!
