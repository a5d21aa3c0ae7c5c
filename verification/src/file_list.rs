//! What the file enumerator decides: which paths count as binary by their
//! extension or a NUL byte near the start, and the sorted order the file
//! list is presented in. Walking the repository index and reading file
//! contents stay outside the library.

use vstd::prelude::*;

use crate::codec::char_from_u32;

verus! {

/// The characters after the last `.` of the path's final component; `None`
/// when the final component has no dot.
pub open spec fn spec_extension(s: Seq<char>) -> Option<Seq<char>>
    decreases s.len(),
{
    if s.len() == 0 {
        None
    } else if s.last() == '.' {
        Some(Seq::empty())
    } else if s.last() == '/' {
        None
    } else {
        match spec_extension(s.drop_last()) {
            Some(e) => Some(e.push(s.last())),
            None => None,
        }
    }
}

/// An upper-case ASCII letter folded to lower case; all else untouched.
pub open spec fn lower_char(c: char) -> char {
    if 'A' <= c && c <= 'Z' {
        ((c as u32) + 32) as char
    } else {
        c
    }
}

/// Character-wise ASCII lower-casing.
pub open spec fn lower_chars(s: Seq<char>) -> Seq<char> {
    Seq::new(s.len(), |i: int| lower_char(s[i]))
}

/// Whether a lower-cased extension names a file format the review never
/// shows: images, archives, executables, fonts, media, databases.
pub open spec fn spec_is_binary_ext(e: Seq<char>) -> bool {
    ||| e == seq!['p', 'n', 'g']
    ||| e == seq!['j', 'p', 'g']
    ||| e == seq!['j', 'p', 'e', 'g']
    ||| e == seq!['g', 'i', 'f']
    ||| e == seq!['b', 'm', 'p']
    ||| e == seq!['i', 'c', 'o']
    ||| e == seq!['s', 'v', 'g']
    ||| e == seq!['p', 'd', 'f']
    ||| e == seq!['z', 'i', 'p']
    ||| e == seq!['t', 'a', 'r']
    ||| e == seq!['g', 'z']
    ||| e == seq!['b', 'z', '2']
    ||| e == seq!['x', 'z']
    ||| e == seq!['7', 'z']
    ||| e == seq!['e', 'x', 'e']
    ||| e == seq!['d', 'l', 'l']
    ||| e == seq!['s', 'o']
    ||| e == seq!['d', 'y', 'l', 'i', 'b']
    ||| e == seq!['o']
    ||| e == seq!['a']
    ||| e == seq!['w', 'a', 's', 'm']
    ||| e == seq!['c', 'l', 'a', 's', 's']
    ||| e == seq!['p', 'y', 'c']
    ||| e == seq!['p', 'y', 'o']
    ||| e == seq!['t', 't', 'f']
    ||| e == seq!['o', 't', 'f']
    ||| e == seq!['w', 'o', 'f', 'f']
    ||| e == seq!['w', 'o', 'f', 'f', '2']
    ||| e == seq!['e', 'o', 't']
    ||| e == seq!['m', 'p', '3']
    ||| e == seq!['m', 'p', '4']
    ||| e == seq!['w', 'a', 'v']
    ||| e == seq!['a', 'v', 'i']
    ||| e == seq!['m', 'k', 'v']
    ||| e == seq!['m', 'o', 'v']
    ||| e == seq!['d', 'b']
    ||| e == seq!['s', 'q', 'l', 'i', 't', 'e']
    ||| e == seq!['s', 'q', 'l', 'i', 't', 'e', '3']
}

/// Whether the path's extension marks it as binary.
pub open spec fn spec_has_binary_extension(path: Seq<char>) -> bool {
    match spec_extension(path) {
        Some(e) => spec_is_binary_ext(lower_chars(e)),
        None => false,
    }
}

fn lower_char_of(c: char) -> (r: char)
    ensures
        r == lower_char(c),
{
    if c >= 'A' && c <= 'Z' {
        let v = c as u32;
        proof {
            assert('A' as u32 == 65 && 'Z' as u32 == 90);
        }
        match char_from_u32(v + 32) {
            Some(c2) => c2,
            None => {
                proof {
                    assert(false);
                }
                unreached()
            },
        }
    } else {
        c
    }
}

/// Whether a file at `path` is skipped for its extension alone.
pub fn has_binary_extension(path: &str) -> (r: bool)
    ensures
        r == spec_has_binary_extension(path@),
{
    let chars = crate::codec::str_chars(path);
    let ghost full = chars@;
    // Scan back to the last '.' of the final component.
    let mut i = chars.len();
    proof {
        assert(full.take(full.len() as int) =~= full);
        assert(full.skip(full.len() as int) =~= Seq::<char>::empty());
        match spec_extension(full) {
            Some(e) => {
                assert(e + Seq::<char>::empty() =~= e);
            },
            None => {},
        }
    }
    while i > 0
        invariant
            i <= full.len(),
            full == chars@,
            full == path@,
            spec_extension(full) == (match spec_extension(full.take(i as int)) {
                Some(e) => Some(e + full.skip(i as int)),
                None => None,
            }),
        decreases i,
    {
        let c = chars[i - 1];
        proof {
            assert(full.take(i as int).last() == full[i - 1]);
            assert(full.take(i as int).drop_last() =~= full.take(i as int - 1));
        }
        if c == '.' {
            proof {
                assert(spec_extension(full.take(i as int)) == Some(Seq::<char>::empty()));
                assert(Seq::<char>::empty() + full.skip(i as int) =~= full.skip(i as int));
            }
            // The extension is everything after this dot.
            let mut e: Vec<char> = Vec::new();
            let mut k = i;
            proof {
                assert(e@ =~= full.subrange(i as int, i as int));
            }
            while k < chars.len()
                invariant
                    i <= k <= full.len(),
                    full == chars@,
                    e@ == full.subrange(i as int, k as int),
                decreases full.len() - k,
            {
                e.push(chars[k]);
                proof {
                    assert(full.subrange(i as int, k as int + 1) =~= full.subrange(
                        i as int,
                        k as int,
                    ).push(full[k as int]));
                }
                k = k + 1;
            }
            proof {
                assert(e@ =~= full.skip(i as int));
            }
            // Fold it to lower case and look it up.
            let mut low: Vec<char> = Vec::new();
            let mut m: usize = 0;
            proof {
                assert(low@ =~= lower_chars(e@).take(0));
            }
            while m < e.len()
                invariant
                    m <= e@.len(),
                    low@ == lower_chars(e@).take(m as int),
                decreases e@.len() - m,
            {
                low.push(lower_char_of(e[m]));
                proof {
                    assert(lower_chars(e@).take(m as int + 1) =~= lower_chars(e@).take(
                        m as int,
                    ).push(lower_char(e@[m as int])));
                }
                m = m + 1;
            }
            proof {
                assert(lower_chars(e@).take(e@.len() as int) =~= lower_chars(e@));
            }
            return is_binary_ext_name(&low);
        } else if c == '/' {
            proof {
                assert(spec_extension(full.take(i as int)) is None);
            }
            return false;
        }
        proof {
            assert(spec_extension(full.take(i as int)) == (match spec_extension(
                full.take(i as int - 1),
            ) {
                Some(e) => Some(e.push(full[i - 1])),
                None => None,
            }));
            match spec_extension(full.take(i as int - 1)) {
                Some(e) => {
                    assert(e.push(full[i - 1]) + full.skip(i as int) =~= e + full.skip(
                        i as int - 1,
                    ));
                },
                None => {},
            }
        }
        i = i - 1;
    }
    proof {
        assert(full.take(0) =~= Seq::<char>::empty());
        assert(spec_extension(Seq::<char>::empty()) is None);
    }
    false
}

fn is_binary_ext_name(e: &Vec<char>) -> (r: bool)
    ensures
        r == spec_is_binary_ext(e@),
{
    let names: [&str; 38] = ["png", "jpg", "jpeg", "gif", "bmp", "ico", "svg", "pdf", "zip", "tar",
        "gz", "bz2", "xz", "7z", "exe", "dll", "so", "dylib", "o", "a", "wasm", "class", "pyc",
        "pyo", "ttf", "otf", "woff", "woff2", "eot", "mp3", "mp4", "wav", "avi", "mkv", "mov",
        "db", "sqlite", "sqlite3"];
    proof {
        reveal_strlit("png");
        reveal_strlit("jpg");
        reveal_strlit("jpeg");
        reveal_strlit("gif");
        reveal_strlit("bmp");
        reveal_strlit("ico");
        reveal_strlit("svg");
        reveal_strlit("pdf");
        reveal_strlit("zip");
        reveal_strlit("tar");
        reveal_strlit("gz");
        reveal_strlit("bz2");
        reveal_strlit("xz");
        reveal_strlit("7z");
        reveal_strlit("exe");
        reveal_strlit("dll");
        reveal_strlit("so");
        reveal_strlit("dylib");
        reveal_strlit("o");
        reveal_strlit("a");
        reveal_strlit("wasm");
        reveal_strlit("class");
        reveal_strlit("pyc");
        reveal_strlit("pyo");
        reveal_strlit("ttf");
        reveal_strlit("otf");
        reveal_strlit("woff");
        reveal_strlit("woff2");
        reveal_strlit("eot");
        reveal_strlit("mp3");
        reveal_strlit("mp4");
        reveal_strlit("wav");
        reveal_strlit("avi");
        reveal_strlit("mkv");
        reveal_strlit("mov");
        reveal_strlit("db");
        reveal_strlit("sqlite");
        reveal_strlit("sqlite3");
    }
    let mut i: usize = 0;
    while i < 38
        invariant
            forall|k: int|
                0 <= k < i ==> e@ != names@[k]@,
            names@.len() == 38,
            names@[0]@ =~= seq!['p', 'n', 'g'],
            names@[1]@ =~= seq!['j', 'p', 'g'],
            names@[2]@ =~= seq!['j', 'p', 'e', 'g'],
            names@[3]@ =~= seq!['g', 'i', 'f'],
            names@[4]@ =~= seq!['b', 'm', 'p'],
            names@[5]@ =~= seq!['i', 'c', 'o'],
            names@[6]@ =~= seq!['s', 'v', 'g'],
            names@[7]@ =~= seq!['p', 'd', 'f'],
            names@[8]@ =~= seq!['z', 'i', 'p'],
            names@[9]@ =~= seq!['t', 'a', 'r'],
            names@[10]@ =~= seq!['g', 'z'],
            names@[11]@ =~= seq!['b', 'z', '2'],
            names@[12]@ =~= seq!['x', 'z'],
            names@[13]@ =~= seq!['7', 'z'],
            names@[14]@ =~= seq!['e', 'x', 'e'],
            names@[15]@ =~= seq!['d', 'l', 'l'],
            names@[16]@ =~= seq!['s', 'o'],
            names@[17]@ =~= seq!['d', 'y', 'l', 'i', 'b'],
            names@[18]@ =~= seq!['o'],
            names@[19]@ =~= seq!['a'],
            names@[20]@ =~= seq!['w', 'a', 's', 'm'],
            names@[21]@ =~= seq!['c', 'l', 'a', 's', 's'],
            names@[22]@ =~= seq!['p', 'y', 'c'],
            names@[23]@ =~= seq!['p', 'y', 'o'],
            names@[24]@ =~= seq!['t', 't', 'f'],
            names@[25]@ =~= seq!['o', 't', 'f'],
            names@[26]@ =~= seq!['w', 'o', 'f', 'f'],
            names@[27]@ =~= seq!['w', 'o', 'f', 'f', '2'],
            names@[28]@ =~= seq!['e', 'o', 't'],
            names@[29]@ =~= seq!['m', 'p', '3'],
            names@[30]@ =~= seq!['m', 'p', '4'],
            names@[31]@ =~= seq!['w', 'a', 'v'],
            names@[32]@ =~= seq!['a', 'v', 'i'],
            names@[33]@ =~= seq!['m', 'k', 'v'],
            names@[34]@ =~= seq!['m', 'o', 'v'],
            names@[35]@ =~= seq!['d', 'b'],
            names@[36]@ =~= seq!['s', 'q', 'l', 'i', 't', 'e'],
            names@[37]@ =~= seq!['s', 'q', 'l', 'i', 't', 'e', '3'],
        decreases 38 - i,
    {
        let name = names[i];
        let nv = crate::codec::str_chars(name);
        if crate::records::chars_eq(e, &nv) {
            proof {
                assert(e@ == names@[i as int]@);
            }
            return true;
        }
        i = i + 1;
    }
    proof {
        assert(!spec_is_binary_ext(e@));
    }
    false
}

/// Whether a NUL byte stands among the first eight KiB of `data` — the
/// content heuristic for a binary file.
pub fn has_nul_in_head(data: &[u8]) -> (r: bool)
    ensures
        r == exists|i: int| 0 <= i < data@.len() && i < 8192 && data@[i] == 0,
{
    let mut i: usize = 0;
    let limit = if data.len() < 8192 {
        data.len()
    } else {
        8192
    };
    while i < limit
        invariant
            limit <= data@.len() && limit <= 8192,
            data@.len() < 8192 ==> limit == data@.len(),
            data@.len() >= 8192 ==> limit == 8192,
            i <= limit,
            forall|k: int| 0 <= k < i ==> data@[k] != 0,
        decreases limit - i,
    {
        if data[i] == 0 {
            return true;
        }
        i = i + 1;
    }
    false
}

} // verus!
