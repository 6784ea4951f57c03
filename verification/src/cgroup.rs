//! Extraction of container ids from cgroup paths, used to attribute GPU
//! processes to containers. Reading `/proc` belongs to the caller; this
//! module parses the contents.

use vstd::prelude::*;
use vstd::string::StrSliceExecFns;
use vstd::string::StringExecFns;
use crate::text::{contains_seq, find_first, is_prefix, matches_at, str_starts_with};

verus! {

/// The character is an ASCII hexadecimal digit.
pub open spec fn hex_char(c: char) -> bool {
    (48 <= c as u32 && c as u32 <= 57) || (97 <= c as u32 && c as u32 <= 102) || (65 <= c as u32
        && c as u32 <= 70)
}

/// Every character of `s` is a hexadecimal digit.
pub open spec fn all_hex(s: Seq<char>) -> bool {
    forall|i: int| 0 <= i < s.len() ==> hex_char(#[trigger] s[i])
}

/// Position of the first occurrence of `n` in `h` (meaningful when `h`
/// contains `n`).
pub open spec fn first_match_at(h: Seq<char>, n: Seq<char>) -> int {
    choose|i: int| matches_at(h, n, i) && forall|j: int| 0 <= j < i ==> !matches_at(h, n, j)
}

proof fn lemma_first_match(h: Seq<char>, n: Seq<char>, i: int)
    requires
        matches_at(h, n, i),
        forall|j: int| 0 <= j < i ==> !matches_at(h, n, j),
    ensures
        first_match_at(h, n) == i,
{
    assert(matches_at(h, n, i) && forall|j: int| 0 <= j < i ==> !matches_at(h, n, j));
    let w = first_match_at(h, n);
    if w < i {
        assert(!matches_at(h, n, w));
    }
    if i < w {
        assert(!matches_at(h, n, i));
    }
}

/// Is an ASCII hexadecimal digit.
fn is_hex_digit(c: char) -> (r: bool)
    ensures
        r == hex_char(c),
{
    let u = c as u32;
    (48 <= u && u <= 57) || (97 <= u && u <= 102) || (65 <= u && u <= 70)
}

fn all_hex_range(s: &str, from: usize, to: usize) -> (r: bool)
    requires
        from <= to <= s@.len(),
    ensures
        r == all_hex(s@.subrange(from as int, to as int)),
{
    let hlen = s.unicode_len();
    let mut i: usize = from;
    while i < to
        invariant
            hlen == s@.len(),
            from <= i <= to <= hlen,
            forall|j: int| from <= j < i ==> hex_char(#[trigger] s@[j]),
        decreases to - i,
    {
        if !is_hex_digit(s.get_char(i)) {
            assert(s@.subrange(from as int, to as int)[i - from] == s@[i as int]);
            return false;
        }
        i = i + 1;
    }
    assert forall|j: int| 0 <= j < to - from implies hex_char(
        #[trigger] s@.subrange(from as int, to as int)[j],
    ) by {
        assert(s@.subrange(from as int, to as int)[j] == s@[from + j]);
    }
    true
}

/// The id after the first "/docker/" segment of the path, when the twelve
/// characters after it are hexadecimal; the id is cut at 64 characters.
pub open spec fn docker_dir_id(path: Seq<char>) -> Option<Seq<char>> {
    if contains_seq(path, "/docker/"@) {
        let p = first_match_at(path, "/docker/"@);
        let id = path.subrange(p + 8, path.len() as int);
        if id.len() >= 12 && all_hex(id.subrange(0, 12)) {
            if id.len() >= 64 {
                Some(id.subrange(0, 64))
            } else {
                Some(id)
            }
        } else {
            None
        }
    } else {
        None
    }
}

/// The id between the first "docker-" and the following '.', when it is at
/// least twelve characters of hexadecimal (the "docker-<id>.scope" form).
pub open spec fn docker_scope_id(path: Seq<char>) -> Option<Seq<char>> {
    if contains_seq(path, "docker-"@) {
        let p = first_match_at(path, "docker-"@);
        let rem = path.subrange(p + 7, path.len() as int);
        if contains_seq(rem, "."@) {
            let e = first_match_at(rem, "."@);
            let id = rem.subrange(0, e);
            if id.len() >= 12 && all_hex(id) {
                Some(id)
            } else {
                None
            }
        } else {
            None
        }
    } else {
        None
    }
}

/// The id after the first "/containerd/" segment, cut at 64 characters, when
/// at least twelve characters long.
pub open spec fn containerd_id(path: Seq<char>) -> Option<Seq<char>> {
    if contains_seq(path, "/containerd/"@) {
        let p = first_match_at(path, "/containerd/"@);
        let id = path.subrange(p + 12, path.len() as int);
        if id.len() >= 12 {
            if id.len() >= 64 {
                Some(id.subrange(0, 64))
            } else {
                Some(id)
            }
        } else {
            None
        }
    } else {
        None
    }
}

/// The container id a cgroup path denotes: the "/docker/<id>" form first,
/// then "docker-<id>.scope", then "/containerd/<id>".
pub open spec fn extract_id_spec(path: Seq<char>) -> Option<Seq<char>> {
    if docker_dir_id(path) is Some {
        docker_dir_id(path)
    } else if docker_scope_id(path) is Some {
        docker_scope_id(path)
    } else {
        containerd_id(path)
    }
}

/// Extract a container id from a cgroup path, trying the "/docker/<id>",
/// "docker-<id>.scope" and "/containerd/<id>" patterns in that order.
pub fn extract_container_id_from_path(path: &str) -> (r: Option<String>)
    ensures
        match r {
            Some(s) => extract_id_spec(path@) == Some(s@),
            None => extract_id_spec(path@) is None,
        },
{
    let len = path.unicode_len();
    // Pattern 1: /docker/<id>
    proof {
        reveal_strlit("/docker/");
    }
    match find_first(path, "/docker/") {
        Some(p) => {
            proof {
                lemma_first_match(path@, "/docker/"@, p as int);
            }
            let start = p + 8;
            if len - start >= 12 && all_hex_range(path, start, start + 12) {
                let end = if len - start >= 64 {
                    start + 64
                } else {
                    len
                };
                let id = path.substring_char(start, end);
                proof {
                    let idv = path@.subrange(start as int, len as int);
                    assert(idv.subrange(0, 12) =~= path@.subrange(start as int, start + 12));
                    if idv.len() >= 64 {
                        assert(idv.subrange(0, 64) =~= path@.subrange(start as int, start + 64));
                    }
                    assert(docker_dir_id(path@) == Some(id@));
                }
                return Some(String::from_str(id));
            }
            proof {
                let idv = path@.subrange(start as int, len as int);
                if idv.len() >= 12 {
                    assert(idv.subrange(0, 12) =~= path@.subrange(start as int, start + 12));
                }
                assert(docker_dir_id(path@) is None);
            }
        },
        None => {},
    }
    // Pattern 2: docker-<id>.scope
    proof {
        reveal_strlit("docker-");
        reveal_strlit(".");
    }
    match find_first(path, "docker-") {
        Some(p) => {
            proof {
                lemma_first_match(path@, "docker-"@, p as int);
            }
            let start = p + 7;
            let rem = path.substring_char(start, len);
            match find_first(rem, ".") {
                Some(e) => {
                    proof {
                        lemma_first_match(rem@, "."@, e as int);
                    }
                    if e >= 12 && all_hex_range(rem, 0, e) {
                        let id = rem.substring_char(0, e);
                        proof {
                            assert(rem@.subrange(0, e as int) == id@);
                            assert(docker_scope_id(path@) == Some(id@));
                        }
                        return Some(String::from_str(id));
                    }
                    proof {
                        assert(docker_scope_id(path@) is None);
                    }
                },
                None => {
                    proof {
                        assert(docker_scope_id(path@) is None);
                    }
                },
            }
        },
        None => {},
    }
    // Pattern 3: /containerd/<id>
    proof {
        reveal_strlit("/containerd/");
    }
    match find_first(path, "/containerd/") {
        Some(p) => {
            proof {
                lemma_first_match(path@, "/containerd/"@, p as int);
            }
            let start = p + 12;
            if len - start >= 12 {
                let end = if len - start >= 64 {
                    start + 64
                } else {
                    len
                };
                let id = path.substring_char(start, end);
                proof {
                    let idv = path@.subrange(start as int, len as int);
                    if idv.len() >= 64 {
                        assert(idv.subrange(0, 64) =~= path@.subrange(start as int, start + 64));
                    }
                    assert(containerd_id(path@) == Some(id@));
                }
                return Some(String::from_str(id));
            }
        },
        None => {},
    }
    None
}

/// The id the lines of a cgroup v2 file denote: the first line of the
/// unified "0::<path>" form whose path holds a recognisable container id.
pub open spec fn v2_id_of(lines: Seq<Seq<char>>) -> Option<Seq<char>>
    decreases lines.len(),
{
    if lines.len() == 0 {
        None
    } else {
        let l = lines[0];
        let cand = if is_prefix("0::"@, l) {
            extract_id_spec(l.subrange(3, l.len() as int))
        } else {
            None
        };
        if cand is Some {
            cand
        } else {
            v2_id_of(lines.drop_first())
        }
    }
}

/// Extract a container id from the contents of a cgroup v2 file: the first
/// "0::<path>" line whose path holds one.
pub fn container_id_from_cgroup_v2(content: &str) -> (r: Option<String>)
    ensures
        match r {
            Some(s) => v2_id_of(crate::text::split_seq(content@, '\n')) == Some(s@),
            None => v2_id_of(crate::text::split_seq(content@, '\n')) is None,
        },
{
    let lines = crate::text::split_char(content, '\n');
    let ghost lv = lines@.map_values(|p: String| p@);
    let n = lines.len();
    proof {
        assert(lv.subrange(0, n as int) =~= lv);
    }
    let mut i: usize = 0;
    while i < n
        invariant
            n == lines@.len(),
            0 <= i <= n,
            lv == lines@.map_values(|p: String| p@),
            lv == crate::text::split_seq(content@, '\n'),
            v2_id_of(lv) == v2_id_of(lv.subrange(i as int, n as int)),
        decreases n - i,
    {
        proof {
            reveal_strlit("0::");
            assert(lv[i as int] == lines@[i as int]@);
            assert(lv.subrange(i as int, n as int).drop_first() =~= lv.subrange(i + 1, n as int));
        }
        let line = &lines[i];
        if str_starts_with(line.as_str(), "0::") {
            let llen = line.as_str().unicode_len();
            let tail = line.as_str().substring_char(3, llen);
            match extract_container_id_from_path(tail) {
                Some(id) => {
                    return Some(id);
                },
                None => {},
            }
        }
        i = i + 1;
    }
    None
}

/// The path part of a cgroup v1 line "N:controller:/path": everything after
/// the second colon, when the line has one.
pub open spec fn v1_line_path(l: Seq<char>) -> Option<Seq<char>> {
    if contains_seq(l, ":"@) {
        let a = first_match_at(l, ":"@);
        let rem = l.subrange(a + 1, l.len() as int);
        if contains_seq(rem, ":"@) {
            let b = first_match_at(rem, ":"@);
            Some(rem.subrange(b + 1, rem.len() as int))
        } else {
            None
        }
    } else {
        None
    }
}

/// The id the lines of a cgroup v1 file denote: the first "N:controller:/path"
/// line whose path holds a recognisable container id.
pub open spec fn v1_id_of(lines: Seq<Seq<char>>) -> Option<Seq<char>>
    decreases lines.len(),
{
    if lines.len() == 0 {
        None
    } else {
        let cand = match v1_line_path(lines[0]) {
            Some(p) => extract_id_spec(p),
            None => None,
        };
        if cand is Some {
            cand
        } else {
            v1_id_of(lines.drop_first())
        }
    }
}

/// Extract a container id from the contents of a cgroup v1 file: the first
/// "N:controller:/path" line whose path holds one.
pub fn container_id_from_cgroup_v1(content: &str) -> (r: Option<String>)
    ensures
        match r {
            Some(s) => v1_id_of(crate::text::split_seq(content@, '\n')) == Some(s@),
            None => v1_id_of(crate::text::split_seq(content@, '\n')) is None,
        },
{
    let lines = crate::text::split_char(content, '\n');
    let ghost lv = lines@.map_values(|p: String| p@);
    let n = lines.len();
    proof {
        assert(lv.subrange(0, n as int) =~= lv);
    }
    let mut i: usize = 0;
    while i < n
        invariant
            n == lines@.len(),
            0 <= i <= n,
            lv == lines@.map_values(|p: String| p@),
            lv == crate::text::split_seq(content@, '\n'),
            v1_id_of(lv) == v1_id_of(lv.subrange(i as int, n as int)),
        decreases n - i,
    {
        proof {
            reveal_strlit(":");
            assert(lv[i as int] == lines@[i as int]@);
            assert(lv.subrange(i as int, n as int).drop_first() =~= lv.subrange(i + 1, n as int));
        }
        let line = lines[i].as_str();
        let llen = line.unicode_len();
        match find_first(line, ":") {
            Some(a) => {
                proof {
                    lemma_first_match(line@, ":"@, a as int);
                }
                let rem = line.substring_char(a + 1, llen);
                match find_first(rem, ":") {
                    Some(b) => {
                        proof {
                            lemma_first_match(rem@, ":"@, b as int);
                        }
                        let remlen = rem.unicode_len();
                        let tail = rem.substring_char(b + 1, remlen);
                        proof {
                            assert(v1_line_path(lv[i as int]) == Some(tail@));
                        }
                        match extract_container_id_from_path(tail) {
                            Some(id) => {
                                return Some(id);
                            },
                            None => {},
                        }
                    },
                    None => {},
                }
            },
            None => {},
        }
        i = i + 1;
    }
    None
}

} // verus!
