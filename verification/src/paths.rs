use vstd::prelude::*;

verus! {

/// The ellipsis inserted in the middle of an abbreviated path.
pub open spec fn ellipsis_chars() -> Seq<char> {
    seq!['.', '.', '.']
}

/// The path relative to `base`: the suffix after a matching prefix, or the
/// path itself when `base` is no prefix of it.
pub open spec fn spec_rel_path(path: Seq<char>, base: Seq<char>) -> Seq<char> {
    if path.len() >= base.len() && path.subrange(0, base.len() as int) == base {
        path.subrange(base.len() as int, path.len() as int)
    } else {
        path
    }
}

/// Abbreviation of a path to `max_width` characters: one that fits is kept
/// whole; a longer one shows its start and its end around an ellipsis, the
/// start getting the extra character when the room splits unevenly.
pub open spec fn spec_abbreviate(rel: Seq<char>, max_width: int) -> Seq<char> {
    if rel.len() <= max_width {
        rel
    } else {
        let avail = if max_width >= 3 {
            max_width - 3
        } else {
            0
        };
        let start_len = (avail + 1) / 2;
        let end_len = avail / 2;
        rel.subrange(0, start_len) + ellipsis_chars() + rel.subrange(
            rel.len() - end_len,
            rel.len() as int,
        )
    }
}

/// Shorten a path for display: strip the `base_path` prefix, then, when the
/// rest does not fit in `max_width` characters, keep its start and end around
/// an ellipsis.
pub fn abbreviate_path(path: &str, base_path: &str, max_width: usize) -> (r: String)
    ensures
        r@ == spec_abbreviate(spec_rel_path(path@, base_path@), max_width as int),
{
    let plen: usize = path.unicode_len();
    let blen: usize = base_path.unicode_len();
    let is_prefix: bool = str_has_prefix(path, base_path);

    let rel: &str = if is_prefix {
        path.substring_char(blen, plen)
    } else {
        path
    };
    let rlen: usize = if is_prefix {
        plen - blen
    } else {
        plen
    };
    proof {
        assert(rel@ == spec_rel_path(path@, base_path@));
        assert(rlen == rel@.len());
    }

    if rlen <= max_width {
        return rel.to_owned();
    }

    let avail: usize = if max_width >= 3 {
        max_width - 3
    } else {
        0
    };
    let start_len: usize = (avail + 1) / 2;
    let end_len: usize = avail / 2;
    proof {
        vstd::arithmetic::div_mod::lemma_div_nonincreasing(avail as int + 1, 2);
        vstd::arithmetic::div_mod::lemma_div_nonincreasing(avail as int, 2);
        vstd::arithmetic::div_mod::lemma_div_pos_is_pos(avail as int + 1, 2);
        vstd::arithmetic::div_mod::lemma_div_pos_is_pos(avail as int, 2);
    }
    let start: &str = rel.substring_char(0, start_len);
    let end: &str = rel.substring_char(rlen - end_len, rlen);
    let mut out: String = start.to_owned();
    out.append("...");
    out.append(end);
    proof {
        reveal_strlit("...");
        assert("..."@ =~= ellipsis_chars());
        assert(out@ =~= spec_abbreviate(rel@, max_width as int));
    }
    out
}

/// Whether `base` is a character-wise prefix of `path`.
fn str_has_prefix(path: &str, base: &str) -> (r: bool)
    ensures
        r == (path@.len() >= base@.len() && path@.subrange(0, base@.len() as int) == base@),
{
    let plen: usize = path.unicode_len();
    let blen: usize = base.unicode_len();
    if plen < blen {
        return false;
    }
    let mut i: usize = 0;
    while i < blen
        invariant
            blen <= plen,
            i <= blen,
            plen == path@.len(),
            blen == base@.len(),
            forall|k: int| 0 <= k < i ==> path@[k] == base@[k],
        decreases blen - i,
    {
        if path.get_char(i) != base.get_char(i) {
            proof {
                if path@.subrange(0, base@.len() as int) == base@ {
                    assert(path@.subrange(0, base@.len() as int)[i as int] == base@[i as int]);
                    assert(false);
                }
            }
            return false;
        }
        i = i + 1;
    }
    proof {
        assert(path@.subrange(0, base@.len() as int) =~= base@);
    }
    true
}

/// Abbreviation respects the width bound and the path's ends: a path longer
/// than `max_width` comes back exactly `max_width` characters long and keeps
/// the original's first and last characters, and one that fits comes back
/// unchanged. Widths under 5 leave no room for both ends beside the
/// three-character ellipsis, so the claim starts there.
pub proof fn lemma_abbreviate_fits(rel: Seq<char>, max_width: int)
    requires
        max_width >= 5,
    ensures
        rel.len() <= max_width ==> spec_abbreviate(rel, max_width) == rel,
        rel.len() > max_width ==> {
            let r = spec_abbreviate(rel, max_width);
            &&& r.len() == max_width
            &&& r[0] == rel[0]
            &&& r[r.len() - 1] == rel[rel.len() - 1]
        },
{
    if rel.len() > max_width {
        let avail = max_width - 3;
        let start_len = (avail + 1) / 2;
        let end_len = avail / 2;
        vstd::arithmetic::div_mod::lemma_fundamental_div_mod(avail, 2);
        vstd::arithmetic::div_mod::lemma_mod_bound(avail, 2);
        assert(start_len + end_len == avail);
        assert(start_len >= 1 && end_len >= 1);
    }
}

/// Index of the last occurrence of `c` in `s`, or -1 when absent.
pub open spec fn last_index_of(s: Seq<char>, c: char) -> int
    decreases s.len(),
{
    if s.len() == 0 {
        -1
    } else if s.last() == c {
        s.len() - 1
    } else {
        last_index_of(s.drop_last(), c)
    }
}

pub proof fn lemma_last_index_of(s: Seq<char>, c: char)
    ensures
        -1 <= last_index_of(s, c) < s.len(),
        last_index_of(s, c) >= 0 ==> s[last_index_of(s, c)] == c,
        forall|k: int| last_index_of(s, c) < k < s.len() ==> s[k] != c,
    decreases s.len(),
{
    if s.len() > 0 && s.last() != c {
        lemma_last_index_of(s.drop_last(), c);
        assert forall|k: int| last_index_of(s, c) < k < s.len() implies s[k] != c by {
            if k < s.len() - 1 {
                assert(s.drop_last()[k] == s[k]);
            }
        }
    }
}

/// The path's extension: the characters after the last dot of its final
/// component, provided that dot is not the component's first character (a
/// leading dot marks a hidden name, not an extension).
pub open spec fn spec_extension(path: Seq<char>) -> Option<Seq<char>> {
    let comp_start = last_index_of(path, '/') + 1;
    let dot = last_index_of(path, '.');
    if dot > comp_start {
        Some(path.subrange(dot + 1, path.len() as int))
    } else {
        None
    }
}

/// Case-insensitive match of one character against a lower-case letter and
/// its upper-case form.
pub open spec fn char_ci(c: char, lo: char, up: char) -> bool {
    c == lo || c == up
}

/// The fixed set of recognized image extensions, matched case-insensitively.
pub open spec fn spec_is_image_ext(e: Seq<char>) -> bool {
    ||| (e.len() == 3 && char_ci(e[0], 'j', 'J') && char_ci(e[1], 'p', 'P') && char_ci(
        e[2],
        'g',
        'G',
    ))
    ||| (e.len() == 4 && char_ci(e[0], 'j', 'J') && char_ci(e[1], 'p', 'P') && char_ci(
        e[2],
        'e',
        'E',
    ) && char_ci(e[3], 'g', 'G'))
    ||| (e.len() == 3 && char_ci(e[0], 'p', 'P') && char_ci(e[1], 'n', 'N') && char_ci(
        e[2],
        'g',
        'G',
    ))
    ||| (e.len() == 3 && char_ci(e[0], 'g', 'G') && char_ci(e[1], 'i', 'I') && char_ci(
        e[2],
        'f',
        'F',
    ))
    ||| (e.len() == 4 && char_ci(e[0], 'w', 'W') && char_ci(e[1], 'e', 'E') && char_ci(
        e[2],
        'b',
        'B',
    ) && char_ci(e[3], 'p', 'P'))
    ||| (e.len() == 3 && char_ci(e[0], 'b', 'B') && char_ci(e[1], 'm', 'M') && char_ci(
        e[2],
        'p',
        'P',
    ))
}

pub open spec fn spec_is_image_path(path: Seq<char>) -> bool {
    match spec_extension(path) {
        Some(e) => spec_is_image_ext(e),
        None => false,
    }
}

/// Index one past the last occurrence of `c`, or 0 when absent.
fn find_last(path: &str, c: char) -> (r: Option<usize>)
    ensures
        ({
            let li = last_index_of(path@, c);
            match r {
                Some(i) => i as int == li && i < path@.len(),
                None => li == -1,
            }
        }),
{
    let len: usize = path.unicode_len();
    let mut j: usize = len;
    while j > 0
        invariant
            j <= len,
            len == path@.len(),
            forall|k: int| j <= k < len ==> path@[k] != c,
        decreases j,
    {
        j = j - 1;
        if path.get_char(j) == c {
            proof {
                lemma_last_index_of(path@, c);
                let li = last_index_of(path@, c);
                assert(li >= 0 ==> li <= j as int);
                assert(li == j as int) by {
                    if li < j as int {
                        assert(path@[j as int] != c);
                    }
                }
            }
            proof {
                assert(j < path@.len());
            }
            return Some(j);
        }
    }
    proof {
        lemma_last_index_of(path@, c);
        let li = last_index_of(path@, c);
        if li >= 0 {
            assert(path@[li] != c);
        }
    }
    None
}

/// Whether a path names an image file: its extension, taken
/// case-insensitively, is one of jpg, jpeg, png, gif, webp or bmp.
pub fn is_image_path(path: &str) -> (r: bool)
    ensures
        r == spec_is_image_path(path@),
{
    let len: usize = path.unicode_len();
    let comp_start: usize = match find_last(path, '/') {
        Some(i) => i + 1,
        None => 0,
    };
    let dot: usize = match find_last(path, '.') {
        Some(i) => i,
        None => {
            proof {
                assert(spec_extension(path@) is None);
            }
            return false;
        },
    };
    if dot <= comp_start {
        proof {
            assert(spec_extension(path@) is None);
        }
        return false;
    }
    let e: &str = path.substring_char(dot + 1, len);
    let elen: usize = len - (dot + 1);
    proof {
        assert(e@ == spec_extension(path@).unwrap());
        assert(elen == e@.len());
    }
    if elen == 3 {
        let c0 = e.get_char(0);
        let c1 = e.get_char(1);
        let c2 = e.get_char(2);
        ((c0 == 'j' || c0 == 'J') && (c1 == 'p' || c1 == 'P') && (c2 == 'g' || c2 == 'G'))
            || ((c0 == 'p' || c0 == 'P') && (c1 == 'n' || c1 == 'N') && (c2 == 'g' || c2 == 'G'))
            || ((c0 == 'g' || c0 == 'G') && (c1 == 'i' || c1 == 'I') && (c2 == 'f' || c2 == 'F'))
            || ((c0 == 'b' || c0 == 'B') && (c1 == 'm' || c1 == 'M') && (c2 == 'p' || c2 == 'P'))
    } else if elen == 4 {
        let c0 = e.get_char(0);
        let c1 = e.get_char(1);
        let c2 = e.get_char(2);
        let c3 = e.get_char(3);
        ((c0 == 'j' || c0 == 'J') && (c1 == 'p' || c1 == 'P') && (c2 == 'e' || c2 == 'E')
            && (c3 == 'g' || c3 == 'G'))
            || ((c0 == 'w' || c0 == 'W') && (c1 == 'e' || c1 == 'E') && (c2 == 'b' || c2 == 'B')
                && (c3 == 'p' || c3 == 'P'))
    } else {
        false
    }
}

/// The subsequence of paths that name image files, in their given order.
pub open spec fn spec_filter_images(paths: Seq<Seq<char>>) -> Seq<Seq<char>>
    decreases paths.len(),
{
    if paths.len() == 0 {
        Seq::empty()
    } else {
        let rest = spec_filter_images(paths.drop_last());
        if spec_is_image_path(paths.last()) {
            rest.push(paths.last())
        } else {
            rest
        }
    }
}

/// Keep the paths that name image files, in their given order: the filtering
/// step of discovery, applied to whatever the directory walk found.
pub fn filter_image_paths(paths: &Vec<String>) -> (r: Vec<String>)
    ensures
        r@.map_values(|s: String| s@) == spec_filter_images(paths@.map_values(|s: String| s@)),
{
    let mut out: Vec<String> = Vec::new();
    let mut i: usize = 0;
    while i < paths.len()
        invariant
            i <= paths@.len(),
            out@.map_values(|s: String| s@) == spec_filter_images(
                paths@.subrange(0, i as int).map_values(|s: String| s@),
            ),
        decreases paths@.len() - i,
    {
        let ghost pre = paths@.subrange(0, i as int).map_values(|s: String| s@);
        let ghost cur = paths@.subrange(0, i as int + 1).map_values(|s: String| s@);
        proof {
            assert(cur.drop_last() =~= pre);
            assert(cur.last() == paths@[i as int]@);
        }
        if is_image_path(paths[i].as_str()) {
            let ghost before = out@.map_values(|s: String| s@);
            out.push(paths[i].clone());
            proof {
                assert(out@.map_values(|s: String| s@) =~= before.push(paths@[i as int]@));
            }
        }
        i = i + 1;
    }
    proof {
        assert(paths@.subrange(0, paths@.len() as int) =~= paths@);
    }
    out
}

/// Whether a directory entry lies within the walk's depth bound: its depth
/// relative to the root (by path-component count, never negative) must not
/// exceed `max_depth`.
pub fn within_depth(base_components: usize, entry_components: usize, max_depth: usize) -> (r:
    bool)
    ensures
        r == ({
            let rel = if entry_components >= base_components {
                entry_components - base_components
            } else {
                0
            };
            rel <= max_depth
        }),
{
    let rel: usize = if entry_components >= base_components {
        entry_components - base_components
    } else {
        0
    };
    rel <= max_depth
}

/// How many found paths the discovery test prints before summarizing.
pub const LISTING_LIMIT: usize = 10;

/// The listing of a discovery test run: the first few found paths and how
/// many more there are beyond them.
pub fn search_listing(found: &Vec<String>) -> (r: (Vec<String>, usize))
    ensures
        r.0@ == found@.subrange(
            0,
            if found@.len() < LISTING_LIMIT { found@.len() as int } else { LISTING_LIMIT as int },
        ),
        r.1 == if found@.len() < LISTING_LIMIT { 0int } else { found@.len() - LISTING_LIMIT },
{
    let n: usize = if found.len() < LISTING_LIMIT {
        found.len()
    } else {
        LISTING_LIMIT
    };
    let mut listed: Vec<String> = Vec::new();
    let mut i: usize = 0;
    while i < n
        invariant
            i <= n,
            n <= found@.len(),
            listed@.len() == i,
            forall|k: int| 0 <= k < i ==> #[trigger] listed@[k] == found@[k],
        decreases n - i,
    {
        listed.push(found[i].clone());
        i = i + 1;
    }
    proof {
        assert(listed@ =~= found@.subrange(0, n as int));
    }
    let extra: usize = found.len() - n;
    (listed, extra)
}

} // verus!
