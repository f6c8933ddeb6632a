use vstd::prelude::*;
use crate::strutil::{find_last_char, is_suffix, last_index_of};

verus! {

/// The extension of a file name: the characters after the last dot,
/// empty when there is no dot or when the only dot leads the name.
pub open spec fn path_ext_of(f: Seq<char>) -> Seq<char> {
    if last_index_of(f, '.') >= 1 {
        f.subrange(last_index_of(f, '.') + 1, f.len() as int)
    } else {
        Seq::empty()
    }
}

/// What a file name truncated to `max` characters is: when the whole
/// name is longer than `max`, its base portion is cut so that base,
/// dot and extension together fill `max` characters, the extension
/// kept whole; a name within the bound stands unchanged.
pub open spec fn truncate_spec(f: Seq<char>, max: int) -> Seq<char> {
    let e = path_ext_of(f);
    if f.len() > max {
        let nb = if max >= e.len() + 1 {
            max - e.len() - 1
        } else {
            0
        };
        f.subrange(0, nb) + seq!['.'] + e
    } else {
        f
    }
}

/// Cut an over-long file name down to `max_length` characters, keeping
/// the extension whole; a name already within the bound is returned
/// unchanged.
pub fn truncate_filename(filename: &str, max_length: usize) -> (r: String)
    ensures
        r@ == truncate_spec(filename@, max_length as int),
{
    proof {
        reveal_strlit(".");
    }
    let n: usize = filename.unicode_len();
    if n <= max_length {
        return String::from_str(filename);
    }
    let (has_ext, j): (bool, usize) = match find_last_char(filename, '.') {
        Some(j) => if j >= 1 {
            (true, j)
        } else {
            (false, 0)
        },
        None => (false, 0),
    };
    proof {
        crate::strutil::lemma_last_index_of_bounds(filename@, '.');
        if has_ext {
            assert(path_ext_of(filename@) == filename@.subrange(j + 1, n as int));
        } else {
            assert(path_ext_of(filename@) =~= Seq::<char>::empty());
        }
    }
    let e_len: usize = if has_ext {
        n - j - 1
    } else {
        0
    };
    let nb: usize = if max_length >= 1 && max_length - 1 >= e_len {
        max_length - e_len - 1
    } else {
        0
    };
    let mut r = String::from_str(filename.substring_char(0, nb));
    r.append(".");
    if has_ext {
        r.append(filename.substring_char(j + 1, n));
    }
    proof {
        assert(r@ =~= truncate_spec(filename@, max_length as int));
    }
    r
}

/// Truncation bound: whenever the extension with its dot fits the
/// bound, the result fits the bound too; when truncation fires it
/// fills the bound exactly, ends in the unmodified dot and extension,
/// and begins with an unchanged lead of the base portion — characters
/// are removed only from the base.
pub proof fn lemma_truncation_bound(f: Seq<char>, max: int)
    requires
        path_ext_of(f).len() + 1 <= max,
    ensures
        truncate_spec(f, max).len() <= max,
        f.len() > max ==> truncate_spec(f, max).len() == max,
        f.len() > max ==> is_suffix(seq!['.'] + path_ext_of(f), truncate_spec(f, max)),
        f.len() > max ==> truncate_spec(f, max).subrange(0, max - path_ext_of(f).len() - 1)
            == f.subrange(0, max - path_ext_of(f).len() - 1),
{
    let e = path_ext_of(f);
    let t = truncate_spec(f, max);
    if f.len() > max {
        let nb = max - e.len() - 1;
        assert(t == f.subrange(0, nb) + seq!['.'] + e);
        assert(t.len() == max);
        assert(t.subrange(t.len() - e.len() - 1, t.len() as int) =~= seq!['.'] + e);
        assert(t.subrange(0, nb) =~= f.subrange(0, nb));
    }
}

/// The digit character of `d`.
pub open spec fn digit_char(d: nat) -> char {
    if d == 0 {
        '0'
    } else if d == 1 {
        '1'
    } else if d == 2 {
        '2'
    } else if d == 3 {
        '3'
    } else if d == 4 {
        '4'
    } else if d == 5 {
        '5'
    } else if d == 6 {
        '6'
    } else if d == 7 {
        '7'
    } else if d == 8 {
        '8'
    } else {
        '9'
    }
}

/// The decimal digits of `n`, most significant first.
pub open spec fn dec_of(n: nat) -> Seq<char>
    decreases n,
{
    if n < 10 {
        seq![digit_char(n)]
    } else {
        dec_of(n / 10) + seq![digit_char(n % 10)]
    }
}

/// Relies on `usize`'s `ToString`: the decimal representation of `n`.
#[verifier::external_body]
fn usize_to_string(n: usize) -> (r: String)
    ensures
        r@ == dec_of(n as nat),
{
    n.to_string()
}

/// The name before the last dot, or the whole name when it has no dot.
pub open spec fn name_part(f: Seq<char>) -> Seq<char> {
    if last_index_of(f, '.') >= 0 {
        f.subrange(0, last_index_of(f, '.'))
    } else {
        f
    }
}

/// The characters after the last dot, or empty when there is none.
pub open spec fn ext_part(f: Seq<char>) -> Seq<char> {
    if last_index_of(f, '.') >= 0 {
        f.subrange(last_index_of(f, '.') + 1, f.len() as int)
    } else {
        Seq::empty()
    }
}

/// The `counter`-th candidate name tried for a file: the name itself
/// (rejoined around its last dot) first, then the name with `_1`, `_2`,
/// ... before the extension.
pub open spec fn candidate_spec(f: Seq<char>, counter: nat) -> Seq<char> {
    if counter == 0 {
        name_part(f) + seq!['.'] + ext_part(f)
    } else {
        name_part(f) + seq!['_'] + dec_of(counter) + seq!['.'] + ext_part(f)
    }
}

/// The `counter`-th candidate name tried when writing `filename`.
pub fn candidate_name(filename: &str, counter: usize) -> (r: String)
    ensures
        r@ == candidate_spec(filename@, counter as nat),
{
    proof {
        reveal_strlit(".");
        reveal_strlit("_");
    }
    let n: usize = filename.unicode_len();
    let (name, ext): (String, String) = match find_last_char(filename, '.') {
        Some(j) => {
            proof {
                crate::strutil::lemma_last_index_of_bounds(filename@, '.');
            }
            (
                String::from_str(filename.substring_char(0, j)),
                String::from_str(filename.substring_char(j + 1, n)),
            )
        },
        None => (String::from_str(filename), String::new()),
    };
    let mut r = name;
    if counter > 0 {
        r.append("_");
        r.append(usize_to_string(counter).as_str());
    }
    r.append(".");
    r.append(ext.as_str());
    proof {
        assert(r@ =~= candidate_spec(filename@, counter as nat));
    }
    r
}

/// Views of a vector of names.
pub open spec fn name_views(s: Seq<String>) -> Seq<Seq<char>> {
    s.map_values(|x: String| x@)
}

/// The `counter`-th candidate for `f` is among the names in `ex`.
pub open spec fn candidate_taken(f: Seq<char>, ex: Seq<Seq<char>>, counter: nat) -> bool {
    ex.contains(candidate_spec(f, counter))
}

/// Whether `s` is among the names in `v`.
fn contains_string(v: &Vec<String>, s: &String) -> (r: bool)
    ensures
        r == name_views(v@).contains(s@),
{
    let mut i: usize = 0;
    while i < v.len()
        invariant
            i <= v@.len(),
            forall|k: int| 0 <= k < i ==> name_views(v@)[k] != s@,
        decreases v@.len() - i,
    {
        if s.eq(&v[i]) {
            assert(name_views(v@)[i as int] == s@);
            return true;
        }
        i = i + 1;
    }
    assert(forall|k: int| 0 <= k < v@.len() ==> name_views(v@)[k] != s@);
    false
}

/// The counter of the first free candidate at or after `counter`,
/// looking at most `fuel` candidates ahead.
pub open spec fn first_free_from(f: Seq<char>, ex: Seq<Seq<char>>, counter: nat, fuel: nat) -> Option<
    nat,
>
    decreases fuel,
{
    if fuel == 0 {
        None
    } else if !candidate_taken(f, ex, counter) {
        Some(counter)
    } else {
        first_free_from(f, ex, counter + 1, (fuel - 1) as nat)
    }
}

/// The first candidate name for `f` not among `ex`, when one stands
/// within the first `ex.len() + 1` candidates; by counting, one always
/// does.
pub open spec fn spec_unique_name(f: Seq<char>, ex: Seq<Seq<char>>) -> Option<Seq<char>> {
    match first_free_from(f, ex, 0, ex.len() + 1) {
        Some(k) => Some(candidate_spec(f, k)),
        None => None,
    }
}

/// The first candidate name for `filename` that is not already among
/// `existing`: the name itself, else `_1`, `_2`, ... before the
/// extension. `None` only when every candidate up to one past the
/// number of existing names is taken.
pub fn unique_filename(filename: &str, existing: &Vec<String>) -> (r: Option<String>)
    ensures
        match spec_unique_name(filename@, name_views(existing@)) {
            Some(c) => r matches Some(rc) && rc@ == c,
            None => r is None,
        },
        r matches Some(c) ==> exists|k: int|
            0 <= k <= existing@.len() && c@ == #[trigger] candidate_spec(filename@, k as nat)
                && !candidate_taken(filename@, name_views(existing@), k as nat) && forall|m: int|
                0 <= m < k ==> #[trigger] candidate_taken(
                    filename@,
                    name_views(existing@),
                    m as nat,
                ),
        r is None ==> forall|k: int|
            0 <= k <= existing@.len() ==> #[trigger] candidate_taken(
                filename@,
                name_views(existing@),
                k as nat,
            ),
{
    let ghost exv = name_views(existing@);
    let mut counter: usize = 0;
    loop
        invariant
            counter <= existing@.len(),
            exv == name_views(existing@),
            first_free_from(filename@, exv, 0, (existing@.len() + 1) as nat) == first_free_from(
                filename@,
                exv,
                counter as nat,
                (existing@.len() + 1 - counter) as nat,
            ),
            forall|m: int|
                0 <= m < counter ==> #[trigger] candidate_taken(
                    filename@,
                    name_views(existing@),
                    m as nat,
                ),
        decreases existing@.len() - counter,
    {
        let cand = candidate_name(filename, counter);
        if !contains_string(existing, &cand) {
            proof {
                let kw: int = counter as int;
                assert(0 <= kw <= existing@.len());
                assert(cand@ == candidate_spec(filename@, kw as nat));
                assert(!candidate_taken(filename@, name_views(existing@), kw as nat));
            }
            return Some(cand);
        }
        if counter == existing.len() {
            proof {
                assert(candidate_taken(filename@, exv, counter as nat));
                assert(first_free_from(filename@, exv, (counter + 1) as nat, 0) is None);
                assert(first_free_from(filename@, exv, counter as nat, 1) is None);
            }
            return None;
        }
        counter = counter + 1;
    }
}

/// Collision safety: the name tried after a first collision differs
/// from the colliding name, so two links that derive one base name
/// yield two distinct files, the second carrying `_1`.
pub proof fn lemma_collision_safe(f: Seq<char>)
    ensures
        candidate_spec(f, 1) != candidate_spec(f, 0),
        !candidate_taken(f, seq![candidate_spec(f, 0)], 1),
        spec_unique_name(f, seq![candidate_spec(f, 0)]) == Some(candidate_spec(f, 1)),
{
    let ex = seq![candidate_spec(f, 0)];
    assert(dec_of(1) == seq![digit_char(1)]);
    assert(candidate_spec(f, 1).len() == candidate_spec(f, 0).len() + 2);
    if candidate_taken(f, ex, 1) {
        let i = choose|i: int| 0 <= i < 1 && ex[i] == candidate_spec(f, 1);
        assert(ex[0] == candidate_spec(f, 0));
    }
    assert(ex[0] == candidate_spec(f, 0));
    assert(candidate_taken(f, ex, 0));
    assert(first_free_from(f, ex, 0, 2) == first_free_from(f, ex, 1, 1));
    assert(first_free_from(f, ex, 1, 1) == Some(1nat));
}

} // verus!
