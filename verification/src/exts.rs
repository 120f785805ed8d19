//! Which container-entry names count as image pages.
//!
//! An entry name is a byte string using `/` as the component separator, as
//! zip and tar archives store them.  A name is kept when its first component
//! is not the platform metadata directory `__MACOSX` and its extension,
//! lowercased, is one of the supported raster image formats.

use vstd::prelude::*;

verus! {

/// The byte value of `/`.
pub const SLASH: u8 = 47;

/// The byte value of `.`.
pub const DOT: u8 = 46;

/// A string literal as a byte sequence (all literals used here are ASCII).
pub open spec fn ascii(s: Seq<char>) -> Seq<u8> {
    s.map_values(|c: char| c as u8)
}

/// ASCII lowercasing of a single byte.
pub open spec fn lower_byte(b: u8) -> u8 {
    if 65 <= b && b <= 90 {
        (b + 32) as u8
    } else {
        b
    }
}

/// ASCII lowercasing of a byte string.
pub open spec fn lower_bytes(s: Seq<u8>) -> Seq<u8> {
    s.map_values(|b: u8| lower_byte(b))
}

/// The supported image extensions, already lowercased.
pub open spec fn is_image_ext(e: Seq<u8>) -> bool {
    ||| e == ascii("jpg"@)
    ||| e == ascii("jpeg"@)
    ||| e == ascii("png"@)
    ||| e == ascii("bmp"@)
    ||| e == ascii("gif"@)
    ||| e == ascii("webp"@)
    ||| e == ascii("ico"@)
}

/// Index just past the last occurrence of `b` in `s`, or 0 when absent.
pub open spec fn after_last(s: Seq<u8>, b: u8) -> int
    decreases s.len(),
{
    if s.len() == 0 {
        0
    } else if s[s.len() - 1] == b {
        s.len() as int
    } else {
        after_last(s.drop_last(), b)
    }
}

/// The file name: everything after the last `/`.
pub open spec fn file_name_of(s: Seq<u8>) -> Seq<u8> {
    s.subrange(after_last(s, SLASH), s.len() as int)
}

/// The first path component: everything before the first `/` (the whole
/// name when it has no `/`).
pub open spec fn first_component_of(s: Seq<u8>) -> Seq<u8> {
    if exists|i: int| 0 <= i < s.len() && s[i] == SLASH {
        s.subrange(
            0,
            choose|i: int|
                0 <= i < s.len() && s[i] == SLASH && forall|j: int| 0 <= j < i ==> s[j] != SLASH,
        )
    } else {
        s
    }
}

/// The extension of a file name: the bytes after the last `.`, provided the
/// dot is neither the first byte (hidden files have no extension) nor absent.
pub open spec fn extension_of(s: Seq<u8>) -> Option<Seq<u8>> {
    let f = file_name_of(s);
    let d = after_last(f, DOT);
    if d <= 1 {
        None
    } else {
        Some(f.subrange(d, f.len() as int))
    }
}

/// An entry name is a page when its first component is not `__MACOSX` and
/// its extension, lowercased, is a supported image format.
pub open spec fn valid_image_name(s: Seq<u8>) -> bool {
    &&& first_component_of(s) != ascii("__MACOSX"@)
    &&& match extension_of(s) {
        Some(e) => is_image_ext(lower_bytes(e)),
        None => false,
    }
}

/// Index just past the last occurrence of `b`, or 0 when `b` is absent.
pub fn scan_after_last(s: &[u8], b: u8) -> (r: usize)
    ensures
        r == after_last(s@, b),
        r <= s@.len(),
{
    let mut i: usize = s.len();
    proof {
        assert(s@.subrange(0, s@.len() as int) =~= s@);
    }
    while i > 0
        invariant
            i <= s@.len(),
            after_last(s@, b) == after_last(s@.subrange(0, i as int), b),
        decreases i,
    {
        if s[i - 1] == b {
            proof {
                assert(s@.subrange(0, i as int).len() == i);
                assert(s@.subrange(0, i as int)[i - 1] == b);
            }
            return i;
        }
        proof {
            assert(s@.subrange(0, i as int).drop_last() =~= s@.subrange(0, i - 1 as int));
        }
        i = i - 1;
    }
    proof {
        assert(s@.subrange(0, 0) =~= Seq::<u8>::empty());
    }
    0
}

/// Index of the first occurrence of `b` in `s`, when there is one.
fn find_first(s: &[u8], b: u8) -> (r: Option<usize>)
    ensures
        match r {
            Some(i) => i < s@.len() && s@[i as int] == b && forall|j: int|
                0 <= j < i ==> s@[j] != b,
            None => forall|j: int| 0 <= j < s@.len() ==> s@[j] != b,
        },
{
    let mut i: usize = 0;
    while i < s.len()
        invariant
            i <= s@.len(),
            forall|j: int| 0 <= j < i ==> s@[j] != b,
        decreases s@.len() - i,
    {
        if s[i] == b {
            return Some(i);
        }
        i = i + 1;
    }
    None
}

/// A copy of the bytes of `s` from `a` (inclusive) to `b` (exclusive).
pub fn copy_range(s: &[u8], a: usize, b: usize) -> (r: Vec<u8>)
    requires
        a <= b <= s@.len(),
    ensures
        r@ == s@.subrange(a as int, b as int),
{
    let mut out: Vec<u8> = Vec::new();
    let mut i: usize = a;
    while i < b
        invariant
            a <= i <= b <= s@.len(),
            out@ =~= s@.subrange(a as int, i as int),
        decreases b - i,
    {
        out.push(s[i]);
        i = i + 1;
    }
    proof {
        assert(out@ =~= s@.subrange(a as int, b as int));
    }
    out
}

/// Whether two byte strings hold the same bytes.
pub fn bytes_eq(a: &[u8], b: &[u8]) -> (r: bool)
    ensures
        r == (a@ == b@),
{
    if a.len() != b.len() {
        return false;
    }
    let mut i: usize = 0;
    while i < a.len()
        invariant
            i <= a@.len(),
            a@.len() == b@.len(),
            forall|j: int| 0 <= j < i ==> a@[j] == b@[j],
        decreases a@.len() - i,
    {
        if a[i] != b[i] {
            return false;
        }
        i = i + 1;
    }
    proof {
        assert(a@ =~= b@);
    }
    true
}

/// ASCII lowercasing of a byte string.
pub fn lower_vec(s: &[u8]) -> (r: Vec<u8>)
    ensures
        r@ == lower_bytes(s@),
{
    let mut out: Vec<u8> = Vec::new();
    let mut i: usize = 0;
    while i < s.len()
        invariant
            i <= s@.len(),
            out@ =~= lower_bytes(s@.subrange(0, i as int)),
        decreases s@.len() - i,
    {
        let c = s[i];
        if 65 <= c && c <= 90 {
            out.push(c + 32);
        } else {
            out.push(c);
        }
        proof {
            assert(out@ =~= lower_bytes(s@.subrange(0, i + 1 as int)));
        }
        i = i + 1;
    }
    proof {
        assert(s@.subrange(0, s@.len() as int) =~= s@);
    }
    out
}

/// Whether a lowercased extension is one of the supported image formats.
pub fn is_supported_ext(e: &[u8]) -> (r: bool)
    ensures
        r == is_image_ext(e@),
{
    proof {
        reveal_strlit("jpg");
        reveal_strlit("jpeg");
        reveal_strlit("png");
        reveal_strlit("bmp");
        reveal_strlit("gif");
        reveal_strlit("webp");
        reveal_strlit("ico");
    }
    if e.len() == 3 && e[0] == 106 && e[1] == 112 && e[2] == 103 {
        proof {
            assert(e@ =~= ascii("jpg"@));
        }
        true
    } else if e.len() == 3 && e[0] == 112 && e[1] == 110 && e[2] == 103 {
        proof {
            assert(e@ =~= ascii("png"@));
        }
        true
    } else if e.len() == 3 && e[0] == 98 && e[1] == 109 && e[2] == 112 {
        proof {
            assert(e@ =~= ascii("bmp"@));
        }
        true
    } else if e.len() == 3 && e[0] == 103 && e[1] == 105 && e[2] == 102 {
        proof {
            assert(e@ =~= ascii("gif"@));
        }
        true
    } else if e.len() == 3 && e[0] == 105 && e[1] == 99 && e[2] == 111 {
        proof {
            assert(e@ =~= ascii("ico"@));
        }
        true
    } else if e.len() == 4 && e[0] == 106 && e[1] == 112 && e[2] == 101 && e[3] == 103 {
        proof {
            assert(e@ =~= ascii("jpeg"@));
        }
        true
    } else if e.len() == 4 && e[0] == 119 && e[1] == 101 && e[2] == 98 && e[3] == 112 {
        proof {
            assert(e@ =~= ascii("webp"@));
        }
        true
    } else {
        false
    }
}

/// The byte string `__MACOSX`.
fn macosx_bytes() -> (r: Vec<u8>)
    ensures
        r@ == ascii("__MACOSX"@),
{
    proof {
        reveal_strlit("__MACOSX");
    }
    let mut v: Vec<u8> = Vec::new();
    v.push(95);
    v.push(95);
    v.push(77);
    v.push(65);
    v.push(67);
    v.push(79);
    v.push(83);
    v.push(88);
    proof {
        assert(v@ =~= ascii("__MACOSX"@));
    }
    v
}

/// Whether a container-entry name counts as an image page.
pub fn check_valid_ext(name: &[u8]) -> (r: bool)
    ensures
        r == valid_image_name(name@),
{
    let first = match find_first(name, SLASH) {
        Some(i) => copy_range(name, 0, i),
        None => copy_range(name, 0, name.len()),
    };
    proof {
        if exists|i: int| 0 <= i < name@.len() && name@[i] == SLASH {
            let k = choose|i: int|
                0 <= i < name@.len() && name@[i] == SLASH && forall|j: int|
                    0 <= j < i ==> name@[j] != SLASH;
            assert(first_component_of(name@) == name@.subrange(0, k));
        }
        assert(name@.subrange(0, name@.len() as int) =~= name@);
        assert(first@ == first_component_of(name@));
    }
    let mac = macosx_bytes();
    if bytes_eq(first.as_slice(), mac.as_slice()) {
        return false;
    }
    let fs = scan_after_last(name, SLASH);
    let fname = copy_range(name, fs, name.len());
    let d = scan_after_last(fname.as_slice(), DOT);
    if d <= 1 {
        return false;
    }
    let ext = copy_range(fname.as_slice(), d, fname.len());
    let low = lower_vec(ext.as_slice());
    is_supported_ext(low.as_slice())
}

} // verus!
