use vstd::prelude::*;

use crate::text::chars_of;

verus! {

/// The position of the last `c` in `s`, or -1 when there is none.
pub open spec fn last_index_of(s: Seq<char>, c: char) -> int
    decreases s.len(),
{
    if s.len() == 0 {
        -1
    } else if s.last() == c {
        s.len() - 1
    } else {
        last_index_of(s.drop_last(), c)
    }
}

pub proof fn lemma_last_index_of(s: Seq<char>, c: char)
    ensures
        -1 <= last_index_of(s, c) < s.len(),
        last_index_of(s, c) >= 0 ==> s[last_index_of(s, c)] == c,
        forall|j: int| last_index_of(s, c) < j < s.len() ==> s[j] != c,
    decreases s.len(),
{
    if s.len() > 0 && s.last() != c {
        lemma_last_index_of(s.drop_last(), c);
        assert forall|j: int| last_index_of(s, c) < j < s.len() implies s[j] != c by {
            if j < s.len() - 1 {
                assert(s.drop_last()[j] == s[j]);
            }
        }
    }
}

/// The final component of the Unix path `s`, as `std::path::Path::file_name` reports it: the
/// last part between slashes that is neither empty nor `.`; there is none when no such part
/// exists or when that part is `..`.
pub open spec fn path_file_name(s: Seq<char>) -> Option<Seq<char>>
    decreases s.len(),
{
    let k = last_index_of(s, '/');
    let part = s.subrange(k + 1, s.len() as int);
    if part.len() == 0 || part == seq!['.'] {
        if k < 0 {
            None
        } else {
            proof {
                lemma_last_index_of(s, '/');
            }
            path_file_name(s.subrange(0, k))
        }
    } else if part == seq!['.', '.'] {
        None
    } else {
        Some(part)
    }
}

/// The extension of the Unix path `s`, as `std::path::Path::extension` reports it: what
/// follows the last `.` of the file name, when that `.` is not its first character.
pub open spec fn path_extension(s: Seq<char>) -> Option<Seq<char>> {
    match path_file_name(s) {
        None => None,
        Some(name) => {
            let d = last_index_of(name, '.');
            if d <= 0 {
                None
            } else {
                Some(name.subrange(d + 1, name.len() as int))
            }
        },
    }
}

fn last_index_before(v: &Vec<char>, c: char, end: usize) -> (k: Option<usize>)
    requires
        end <= v@.len(),
    ensures
        match k {
            Some(k) => k < end && last_index_of(v@.subrange(0, end as int), c) == k,
            None => last_index_of(v@.subrange(0, end as int), c) == -1,
        },
{
    let mut i = end;
    while i > 0
        invariant
            i <= end <= v@.len(),
            last_index_of(v@.subrange(0, end as int), c) == last_index_of(v@.subrange(0, i as int), c),
        decreases i,
    {
        if v[i - 1] == c {
            return Some(i - 1);
        }
        assert(v@.subrange(0, i as int).drop_last() =~= v@.subrange(0, i - 1));
        i = i - 1;
    }
    None
}

/// The final component of the path `path`, as `std::path::Path::file_name` reports it.
pub fn file_name(path: &str) -> (name: Option<String>)
    ensures
        match name {
            Some(n) => path_file_name(path@) == Some(n@),
            None => path_file_name(path@) is None,
        },
{
    let v = chars_of(path);
    let mut end = v.len();
    assert(v@.subrange(0, end as int) =~= path@);
    loop
        invariant
            end <= v@.len(),
            v@ == path@,
            path_file_name(path@) == path_file_name(v@.subrange(0, end as int)),
        decreases end,
    {
        let ghost s = v@.subrange(0, end as int);
        let k = last_index_before(&v, '/', end);
        let start = match k {
            Some(k) => k + 1,
            None => 0,
        };
        proof {
            lemma_last_index_of(s, '/');
            assert(s.subrange(last_index_of(s, '/') + 1, s.len() as int) =~= v@.subrange(start as int, end as int));
        }
        let len = end - start;
        let is_dot = len == 1 && v[start] == '.';
        let is_dot_dot = len == 2 && v[start] == '.' && v[start + 1] == '.';
        proof {
            let part = v@.subrange(start as int, end as int);
            if len == 1 {
                if is_dot {
                    assert(part =~= seq!['.']);
                } else {
                    assert(part[0] != seq!['.'][0]);
                }
            } else {
                assert(part.len() != 1);
                assert(part != seq!['.']);
            }
            if len == 2 {
                if is_dot_dot {
                    assert(part =~= seq!['.', '.']);
                } else if part[0] != '.' {
                    assert(part[0] != seq!['.', '.'][0]);
                } else {
                    assert(part[1] != seq!['.', '.'][1]);
                }
            } else {
                assert(part.len() != 2);
                assert(part != seq!['.', '.']);
            }
        }
        if len == 0 || is_dot {
            match k {
                None => {
                    return None;
                },
                Some(k) => {
                    assert(s.subrange(0, k as int) =~= v@.subrange(0, k as int));
                    end = k;
                },
            }
        } else if is_dot_dot {
            return None;
        } else {
            return Some(String::from_str(path.substring_char(start, end)));
        }
    }
}

/// The extension of the path `path`, as `std::path::Path::extension` reports it.
pub fn extension(path: &str) -> (ext: Option<String>)
    ensures
        match ext {
            Some(e) => path_extension(path@) == Some(e@),
            None => path_extension(path@) is None,
        },
{
    let name = match file_name(path) {
        Some(n) => n,
        None => {
            return None;
        },
    };
    let v = chars_of(name.as_str());
    let n = v.len();
    assert(v@.subrange(0, n as int) =~= name@);
    match last_index_before(&v, '.', n) {
        Some(d) => {
            if d == 0 {
                None
            } else {
                proof {
                    lemma_last_index_of(name@, '.');
                }
                Some(String::from_str(name.as_str().substring_char(d + 1, n)))
            }
        },
        None => None,
    }
}

} // verus!
