//! Classifying files by extension and deriving display and grouping paths
//! relative to the scanned root.
use vstd::prelude::*;
use vstd::string::StrSliceExecFns;
use vstd::string::StringExecFns;
use crate::text::{
    char_eq, find_last, has_char_prefix, is_prefix, last_pos, lemma_last_pos,
    lemma_last_pos_unique, lower_char, tail_from, to_lower_char,
};

verus! {

/// The file-name portion of a path: everything after the last `/`.
pub open spec fn file_name(s: Seq<char>) -> Seq<char> {
    s.subrange(last_pos(s, '/') + 1, s.len() as int)
}

pub open spec fn lowered(s: Seq<char>) -> Seq<char> {
    s.map_values(|c: char| lower_char(c))
}

/// The fixed allow-list of image extensions, compared case-insensitively.
pub open spec fn is_image_ext(ext: Seq<char>) -> bool {
    let l = lowered(ext);
    ||| l == seq!['j', 'p', 'g']
    ||| l == seq!['j', 'p', 'e', 'g']
    ||| l == seq!['p', 'n', 'g']
    ||| l == seq!['g', 'i', 'f']
    ||| l == seq!['b', 'm', 'p']
    ||| l == seq!['w', 'e', 'b', 'p']
}

/// A path names an image iff its file name has a non-empty extension that is
/// on the allow-list.  The extension starts after the last `.` of the file
/// name; a name with no `.`, or whose only `.` is its first character, has
/// none.
pub open spec fn is_image_path(s: Seq<char>) -> bool {
    let name = file_name(s);
    let d = last_pos(name, '.');
    d > 0 && is_image_ext(name.subrange(d + 1, name.len() as int))
}

/// Case-insensitivity of the allow-list: an extension classifies as an
/// image extension exactly as its ASCII-lower-cased form does, so
/// `IMAGE.JPG` and `image.jpg` classify alike.
pub proof fn lemma_image_ext_case_insensitive(ext: Seq<char>)
    ensures
        is_image_ext(ext) == is_image_ext(lowered(ext)),
{
    assert(lowered(lowered(ext)) =~= lowered(ext)) by {
        assert forall|i: int| 0 <= i < ext.len() implies lowered(lowered(ext))[i] == lowered(
            ext,
        )[i] by {
            assert(lower_char(lower_char(ext[i])) == lower_char(ext[i]));
        }
    }
}

/// Whether the lower-cased characters of `s` equal the characters of `lit`.
fn lowered_eq(s: &str, lit: &str) -> (r: bool)
    ensures
        r == (lowered(s@) == lit@),
{
    let n: usize = s.unicode_len();
    let m: usize = lit.unicode_len();
    if n != m {
        return false;
    }
    let mut i: usize = 0;
    while i < n
        invariant
            0 <= i <= n,
            n == s@.len(),
            n == lit@.len(),
            forall|j: int| 0 <= j < i ==> lowered(s@)[j] == lit@[j],
        decreases n - i,
    {
        if to_lower_char(s.get_char(i)) != lit.get_char(i) {
            assert(lowered(s@)[i as int] != lit@[i as int]);
            return false;
        }
        i = i + 1;
    }
    assert(lowered(s@) =~= lit@);
    true
}

/// A file is an image iff its extension case-insensitively matches one of
/// jpg, jpeg, png, gif, bmp, webp.
pub fn is_image_file(path: &str) -> (r: bool)
    ensures
        r == is_image_path(path@),
{
    let n: usize = path.unicode_len();
    proof {
        lemma_last_pos(path@, '/');
    }
    let start: usize = match find_last(path, '/') {
        Some(i) => i + 1,
        None => 0,
    };
    let ghost name = path@.subrange(start as int, n as int);
    assert(file_name(path@) == name);
    proof {
        lemma_last_pos(path@, '.');
    }
    let dot = find_last(path, '.');
    match dot {
        None => {
            proof {
                assert forall|i: int| -1 < i < name.len() implies name[i] != '.' by {
                    assert(path@[start + i] != '.');
                }
                lemma_last_pos_unique(name, '.', -1);
            }
            false
        },
        Some(dp) => {
            if dp < start {
                proof {
                    assert forall|i: int| -1 < i < name.len() implies name[i] != '.' by {
                        assert(start + i > dp);
                        assert(path@[start + i] != '.');
                    }
                    lemma_last_pos_unique(name, '.', -1);
                }
                false
            } else if dp == start {
                proof {
                    assert(name[0] == path@[start as int]);
                    assert forall|i: int| 0 < i < name.len() implies name[i] != '.' by {
                        assert(start + i > dp);
                        assert(path@[start + i] != '.');
                    }
                    lemma_last_pos_unique(name, '.', 0);
                }
                false
            } else {
                // dp > start: the file name has a non-empty stem and its
                // extension is path[dp+1..].
                proof {
                    let d = dp - start;
                    assert(name[d] == path@[dp as int]);
                    assert forall|i: int| d < i < name.len() implies name[i] != '.' by {
                        assert(start + i > dp);
                        assert(path@[start + i] != '.');
                    }
                    lemma_last_pos_unique(name, '.', d);
                }
                let ext: &str = path.substring_char(dp + 1, n);
                assert(ext@ =~= name.subrange(last_pos(name, '.') + 1, name.len() as int));
                let r = lowered_eq(ext, "jpg") || lowered_eq(ext, "jpeg") || lowered_eq(
                    ext,
                    "png",
                ) || lowered_eq(ext, "gif") || lowered_eq(ext, "bmp") || lowered_eq(ext, "webp");
                proof {
                    reveal_strlit("jpg");
                    reveal_strlit("jpeg");
                    reveal_strlit("png");
                    reveal_strlit("gif");
                    reveal_strlit("bmp");
                    reveal_strlit("webp");
                    assert("jpg"@ =~= seq!['j', 'p', 'g']);
                    assert("jpeg"@ =~= seq!['j', 'p', 'e', 'g']);
                    assert("png"@ =~= seq!['p', 'n', 'g']);
                    assert("gif"@ =~= seq!['g', 'i', 'f']);
                    assert("bmp"@ =~= seq!['b', 'm', 'p']);
                    assert("webp"@ =~= seq!['w', 'e', 'b', 'p']);
                }
                r
            }
        },
    }
}

/// The display path of a file relative to the scan root: the part after
/// `base/` when the path starts with it, otherwise the path as given.
pub open spec fn rel_path(f: Seq<char>, base: Seq<char>) -> Seq<char> {
    let p = base.push('/');
    if is_prefix(p, f) {
        f.subrange(p.len() as int, f.len() as int)
    } else {
        f
    }
}

/// The directory part of a path: everything before the last `/`, empty when
/// there is none.
pub open spec fn parent_dir(f: Seq<char>) -> Seq<char> {
    let sp = last_pos(f, '/');
    if sp >= 0 {
        f.subrange(0, sp)
    } else {
        Seq::empty()
    }
}

/// The grouping key of a file under the scan root: its parent directory
/// relative to the root, with `.` standing for the root itself (also used
/// when the parent does not lie under the root).
pub open spec fn folder_key(f: Seq<char>, base: Seq<char>) -> Seq<char> {
    let par = parent_dir(f);
    if par == base {
        seq!['.']
    } else {
        let p = base.push('/');
        if is_prefix(p, par) && par.len() > p.len() {
            par.subrange(p.len() as int, par.len() as int)
        } else {
            seq!['.']
        }
    }
}

fn base_slash(base: &str) -> (r: String)
    ensures
        r@ == base@.push('/'),
{
    let mut prefix: String = String::from_str(base);
    prefix.append("/");
    proof {
        reveal_strlit("/");
        assert(prefix@ =~= base@.push('/'));
    }
    prefix
}

fn dot_string() -> (r: String)
    ensures
        r@ == seq!['.'],
{
    let r = String::from_str(".");
    proof {
        reveal_strlit(".");
        assert(r@ =~= seq!['.']);
    }
    r
}

/// The display path of `f` relative to `base`.
pub fn relative_to(f: &str, base: &str) -> (r: String)
    ensures
        r@ == rel_path(f@, base@),
{
    let prefix = base_slash(base);
    if has_char_prefix(f, prefix.as_str()) {
        let pl: usize = prefix.as_str().unicode_len();
        tail_from(f, pl)
    } else {
        String::from_str(f)
    }
}

/// The grouping key of `f` under `base`.
pub fn folder_of(f: &str, base: &str) -> (r: String)
    ensures
        r@ == folder_key(f@, base@),
{
    proof {
        lemma_last_pos(f@, '/');
    }
    match find_last(f, '/') {
        None => {
            let bempty = base.unicode_len() == 0;
            if bempty {
                assert(parent_dir(f@) =~= base@);
            } else {
                assert(parent_dir(f@) != base@);
                assert(!is_prefix(base@.push('/'), parent_dir(f@)));
            }
            dot_string()
        },
        Some(sp) => {
            let par: &str = f.substring_char(0, sp);
            assert(par@ == parent_dir(f@));
            if char_eq(par, base) {
                dot_string()
            } else {
                let prefix = base_slash(base);
                if has_char_prefix(par, prefix.as_str()) {
                    let pl: usize = prefix.as_str().unicode_len();
                    let parl: usize = par.unicode_len();
                    if parl > pl {
                        tail_from(par, pl)
                    } else {
                        dot_string()
                    }
                } else {
                    dot_string()
                }
            }
        },
    }
}

} // verus!
