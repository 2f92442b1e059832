//! Cleaning and deduplication of column names.
//!
//! Every character that is not an ASCII letter or digit, an underscore, a
//! hyphen, or white space is removed. A name left empty becomes `column_{n}`;
//! a name equal to one assigned earlier in the same schema gets `_{n}`
//! appended. Both draw `n` from one counter that starts at 1; when the name
//! drawn is taken too, the counter advances until it gives a free one, and
//! the next draw starts after it. The names follow from the input order
//! alone, and no two are equal.
use vstd::prelude::*;
use vstd::string::StringExecFns;
use vstd::seq_lib::seq_to_set_is_finite;
use vstd::set_lib::lemma_len_subset;

verus! {

/// Unicode `White_Space`, the class that `\s` matches.
pub open spec fn is_white_space(c: char) -> bool {
    ('\t' <= c <= '\r') || c == ' ' || c == '\u{85}' || c == '\u{a0}' || c == '\u{1680}' || (
    '\u{2000}' <= c <= '\u{200a}') || c == '\u{2028}' || c == '\u{2029}' || c == '\u{202f}' || c
        == '\u{205f}' || c == '\u{3000}'
}

/// The characters that cleaning keeps.
pub open spec fn is_kept_char(c: char) -> bool {
    ('a' <= c <= 'z') || ('A' <= c <= 'Z') || ('0' <= c <= '9') || c == '_' || c == '-'
        || is_white_space(c)
}

/// A name with every character that cleaning does not keep removed.
pub open spec fn cleaned(s: Seq<char>) -> Seq<char> {
    s.filter(|c: char| is_kept_char(c))
}

pub open spec fn digit_char(d: nat) -> char {
    if d == 0 {
        '0'
    } else if d == 1 {
        '1'
    } else if d == 2 {
        '2'
    } else if d == 3 {
        '3'
    } else if d == 4 {
        '4'
    } else if d == 5 {
        '5'
    } else if d == 6 {
        '6'
    } else if d == 7 {
        '7'
    } else if d == 8 {
        '8'
    } else {
        '9'
    }
}

/// The decimal digits of `n`, most significant first, without leading zeros.
pub open spec fn decimal(n: nat) -> Seq<char>
    decreases n,
{
    if n < 10 {
        seq![digit_char(n)]
    } else {
        decimal(n / 10).push(digit_char(n % 10))
    }
}

pub open spec fn column_base() -> Seq<char> {
    seq!['c', 'o', 'l', 'u', 'm', 'n']
}

/// `{base}_{n}`.
pub open spec fn suffixed(base: Seq<char>, n: nat) -> Seq<char> {
    base + seq!['_'] + decimal(n)
}

/// The first counter value from `n` on, among the next `fuel + 1`, whose
/// `{base}_{n}` is not among `assigned`; the last of them if all are taken.
pub open spec fn first_free(assigned: Seq<Seq<char>>, base: Seq<char>, n: nat, fuel: nat) -> nat
    decreases fuel,
{
    if fuel == 0 || !assigned.contains(suffixed(base, n)) {
        n
    } else {
        first_free(assigned, base, n + 1, (fuel - 1) as nat)
    }
}

/// The name given to one raw name, from the names assigned before it and the
/// counter; returns the name and the next counter. A cleaned name not yet
/// assigned is kept; otherwise `{cleaned}_{n}` (or `column_{n}` for an empty
/// one) with the first counter value that gives a free name.
pub open spec fn assign_name(assigned: Seq<Seq<char>>, counter: nat, raw: Seq<char>) -> (
    Seq<char>,
    nat,
) {
    let c = cleaned(raw);
    if c.len() > 0 && !assigned.contains(c) {
        (c, counter)
    } else {
        let base = if c.len() == 0 {
            column_base()
        } else {
            c
        };
        let n = first_free(assigned, base, counter, assigned.len());
        (suffixed(base, n), n + 1)
    }
}

/// The names assigned to `raw`, in order, and the counter after them.
pub open spec fn dedup_state(raw: Seq<Seq<char>>) -> (Seq<Seq<char>>, nat)
    decreases raw.len(),
{
    if raw.len() == 0 {
        (Seq::empty(), 1)
    } else {
        let (names, n) = dedup_state(raw.drop_last());
        let (name, n2) = assign_name(names, n, raw.last());
        (names.push(name), n2)
    }
}

/// The cleaned, deduplicated names of `raw`, in order.
pub open spec fn dedup_names(raw: Seq<Seq<char>>) -> Seq<Seq<char>> {
    dedup_state(raw).0
}

proof fn lemma_decimal_len(n: nat)
    ensures
        decimal(n).len() >= 1,
        decimal(n).len() == 1 <==> n < 10,
    decreases n,
{
    if n >= 10 {
        lemma_decimal_len(n / 10);
    }
}

proof fn lemma_digit_injective(d1: nat, d2: nat)
    requires
        d1 < 10,
        d2 < 10,
        digit_char(d1) == digit_char(d2),
    ensures
        d1 == d2,
{
    assert(d1 == 0 || d1 == 1 || d1 == 2 || d1 == 3 || d1 == 4 || d1 == 5 || d1 == 6 || d1 == 7
        || d1 == 8 || d1 == 9);
    assert(d2 == 0 || d2 == 1 || d2 == 2 || d2 == 3 || d2 == 4 || d2 == 5 || d2 == 6 || d2 == 7
        || d2 == 8 || d2 == 9);
}

proof fn lemma_decimal_injective(a: nat, b: nat)
    requires
        decimal(a) == decimal(b),
    ensures
        a == b,
    decreases a,
{
    lemma_decimal_len(a);
    lemma_decimal_len(b);
    if a < 10 {
        assert(decimal(a)[0] == digit_char(a));
        assert(decimal(b)[0] == digit_char(b));
        lemma_digit_injective(a, b);
    } else {
        assert(decimal(a).last() == digit_char(a % 10));
        assert(decimal(b).last() == digit_char(b % 10));
        lemma_digit_injective(a % 10, b % 10);
        assert(decimal(a).drop_last() =~= decimal(a / 10));
        assert(decimal(b).drop_last() =~= decimal(b / 10));
        lemma_decimal_injective(a / 10, b / 10);
        assert(a == 10 * (a / 10) + a % 10) by (nonlinear_arith);
        assert(b == 10 * (b / 10) + b % 10) by (nonlinear_arith);
    }
}

proof fn lemma_suffixed_injective(base: Seq<char>, a: nat, b: nat)
    requires
        suffixed(base, a) == suffixed(base, b),
    ensures
        a == b,
{
    let k = base.len() + 1int;
    assert(suffixed(base, a).skip(k) =~= decimal(a));
    assert(suffixed(base, b).skip(k) =~= decimal(b));
    lemma_decimal_injective(a, b);
}

/// `{base}_{n}`, ..., `{base}_{n + f}`.
spec fn candidates(base: Seq<char>, n: nat, f: nat) -> Set<Seq<char>>
    decreases f,
{
    if f == 0 {
        set![suffixed(base, n)]
    } else {
        candidates(base, n, (f - 1) as nat).insert(suffixed(base, n + f))
    }
}

proof fn lemma_candidates(base: Seq<char>, n: nat, f: nat)
    ensures
        candidates(base, n, f).finite(),
        candidates(base, n, f).len() == f + 1,
        forall|s: Seq<char>|
            #[trigger] candidates(base, n, f).contains(s) <==> exists|m: nat|
                n <= m <= n + f && s == #[trigger] suffixed(base, m),
    decreases f,
{
    if f == 0 {
        assert forall|s: Seq<char>| #[trigger] candidates(base, n, f).contains(s) <==> exists|m: nat|
            n <= m <= n + f && s == #[trigger] suffixed(base, m) by {
            if candidates(base, n, f).contains(s) {
                assert(s == suffixed(base, n));
            }
        }
    } else {
        let prev = candidates(base, n, (f - 1) as nat);
        lemma_candidates(base, n, (f - 1) as nat);
        if prev.contains(suffixed(base, n + f)) {
            let m = choose|m: nat| n <= m <= n + f - 1 && suffixed(base, n + f) == #[trigger] suffixed(base, m);
            lemma_suffixed_injective(base, n + f, m);
        }
        assert forall|s: Seq<char>| #[trigger] candidates(base, n, f).contains(s) <==> exists|m: nat|
            n <= m <= n + f && s == #[trigger] suffixed(base, m) by {
            if candidates(base, n, f).contains(s) && s != suffixed(base, n + f) {
                let m = choose|m: nat| n <= m <= n + f - 1 && s == #[trigger] suffixed(base, m);
                assert(n <= m <= n + f);
            }
            if exists|m: nat| n <= m <= n + f && s == #[trigger] suffixed(base, m) {
                let m = choose|m: nat| n <= m <= n + f && s == #[trigger] suffixed(base, m);
                if m < n + f {
                    assert(prev.contains(s));
                }
            }
        }
    }
}

proof fn lemma_first_free_bounds(assigned: Seq<Seq<char>>, base: Seq<char>, n: nat, fuel: nat)
    ensures
        n <= first_free(assigned, base, n, fuel) <= n + fuel,
    decreases fuel,
{
    if fuel > 0 && assigned.contains(suffixed(base, n)) {
        lemma_first_free_bounds(assigned, base, n + 1, (fuel - 1) as nat);
    }
}

proof fn lemma_first_free_taken(assigned: Seq<Seq<char>>, base: Seq<char>, n: nat, fuel: nat)
    requires
        assigned.contains(suffixed(base, first_free(assigned, base, n, fuel))),
    ensures
        forall|m: nat| n <= m <= n + fuel ==> assigned.contains(#[trigger] suffixed(base, m)),
    decreases fuel,
{
    if fuel > 0 {
        lemma_first_free_taken(assigned, base, n + 1, (fuel - 1) as nat);
    }
}

/// Drawing from the counter always reaches a free name: of the
/// `assigned.len() + 1` candidates, at most `assigned.len()` are taken.
proof fn lemma_first_free_is_free(assigned: Seq<Seq<char>>, base: Seq<char>, n: nat)
    ensures
        !assigned.contains(suffixed(base, first_free(assigned, base, n, assigned.len()))),
{
    let f = assigned.len();
    if assigned.contains(suffixed(base, first_free(assigned, base, n, f))) {
        lemma_first_free_taken(assigned, base, n, f);
        lemma_candidates(base, n, f);
        let cands = candidates(base, n, f);
        assert forall|s: Seq<char>| cands.contains(s) implies assigned.to_set().contains(s) by {
            let m = choose|m: nat| n <= m <= n + f && s == #[trigger] suffixed(base, m);
            assert(assigned.contains(suffixed(base, m)));
        }
        seq_to_set_is_finite(assigned);
        lemma_len_subset(cands, assigned.to_set());
        assigned.lemma_cardinality_of_set();
    }
}

proof fn lemma_assign_fresh(assigned: Seq<Seq<char>>, counter: nat, raw: Seq<char>)
    ensures
        !assigned.contains(assign_name(assigned, counter, raw).0),
        counter <= assign_name(assigned, counter, raw).1 <= counter + assigned.len() + 1,
{
    let c = cleaned(raw);
    if !(c.len() > 0 && !assigned.contains(c)) {
        let base = if c.len() == 0 {
            column_base()
        } else {
            c
        };
        lemma_first_free_is_free(assigned, base, counter);
        lemma_first_free_bounds(assigned, base, counter, assigned.len());
    }
}

/// No two names that deduplication gives are equal.
pub proof fn lemma_dedup_unique(raw: Seq<Seq<char>>)
    ensures
        dedup_names(raw).no_duplicates(),
        dedup_names(raw).len() == raw.len(),
    decreases raw.len(),
{
    if raw.len() > 0 {
        lemma_dedup_unique(raw.drop_last());
        let (names, n) = dedup_state(raw.drop_last());
        lemma_assign_fresh(names, n, raw.last());
        let name = assign_name(names, n, raw.last()).0;
        assert forall|i: int, j: int|
            0 <= i < j < names.push(name).len() implies names.push(name)[i] != names.push(name)[j] by {
            if j == names.len() {
                assert(names.contains(names[i]));
            }
        }
    }
}

/// The counter after `raw` grows by at most `k + 1` for the name at position `k`.
proof fn lemma_counter_bound(raw: Seq<Seq<char>>)
    ensures
        dedup_state(raw).1 <= 1 + raw.len() * raw.len(),
        dedup_state(raw).0.len() == raw.len(),
    decreases raw.len(),
{
    if raw.len() > 0 {
        let k = (raw.len() - 1) as nat;
        lemma_counter_bound(raw.drop_last());
        let (names, n) = dedup_state(raw.drop_last());
        lemma_assign_fresh(names, n, raw.last());
        assert(1 + k * k + k + 1 <= 1 + (k + 1) * (k + 1)) by (nonlinear_arith);
    }
}

pub open spec fn strings_view(v: Seq<String>) -> Seq<Seq<char>> {
    v.map_values(|s: String| s@)
}

/// Cleaning and deduplication depend on the input names alone: equal inputs
/// give equal outputs, name for name and in the same order, and there is one
/// output name per input name.
pub proof fn lemma_dedup_deterministic(a: Seq<Seq<char>>, b: Seq<Seq<char>>)
    requires
        a == b,
    ensures
        dedup_names(a) == dedup_names(b),
        dedup_names(a).len() == a.len(),
    decreases a.len(),
{
    if a.len() > 0 {
        lemma_dedup_deterministic(a.drop_last(), b.drop_last());
    }
}

/// Relies on `regex::Regex::replace_all` with the class
/// `[^a-zA-Z0-9_\-\s]` and an empty replacement: every character outside
/// the class `[a-zA-Z0-9_\-\s]` is removed and the others are kept in order
/// (`\s` is Unicode `White_Space`).
#[verifier::external_body]
pub(crate) fn clean_column_name(column_name: &str) -> (r: String)
    ensures
        r@ == cleaned(column_name@),
{
    let pattern = regex::Regex::new(r"[^a-zA-Z0-9_\-\s]").unwrap();
    pattern.replace_all(column_name, "").to_string()
}

/// Relies on `u128`'s `to_string`: the decimal digits, without sign or
/// leading zeros.
#[verifier::external_body]
fn decimal_string(n: u128) -> (r: String)
    ensures
        r@ == decimal(n as nat),
{
    n.to_string()
}

pub(crate) fn contains_name(names: &Vec<String>, c: &String) -> (r: bool)
    ensures
        r == strings_view(names@).contains(c@),
{
    let mut i: usize = 0;
    while i < names.len()
        invariant
            i <= names@.len(),
            forall|j: int| 0 <= j < i ==> names@[j]@ != c@,
        decreases names@.len() - i,
    {
        if names[i] == *c {
            assert(strings_view(names@)[i as int] == c@);
            return true;
        }
        i = i + 1;
    }
    assert forall|j: int| 0 <= j < strings_view(names@).len() implies strings_view(names@)[j]
        != c@ by {
        assert(strings_view(names@)[j] == names@[j]@);
    }
    false
}

fn suffixed_name(base: &String, n: u128) -> (r: String)
    ensures
        r@ == suffixed(base@, n as nat),
{
    proof {
        reveal_strlit("_");
    }
    let joined = base.clone().concat("_");
    let digits = decimal_string(n);
    let joined = joined.concat(digits.as_str());
    assert(joined@ =~= suffixed(base@, n as nat));
    joined
}

/// `{base}_{n}` for the first `n` from `counter` on that is not among `out`.
fn free_name(out: &Vec<String>, base: &String, counter: u128) -> (r: (String, u128))
    requires
        counter + out@.len() < u128::MAX,
    ensures
        r.1 == first_free(strings_view(out@), base@, counter as nat, out@.len()),
        r.0@ == suffixed(base@, r.1 as nat),
{
    let ghost assigned = strings_view(out@);
    let mut n = counter;
    let mut fuel: usize = out.len();
    loop
        invariant
            assigned == strings_view(out@),
            n + fuel == counter + out@.len(),
            counter + out@.len() < u128::MAX,
            first_free(assigned, base@, n as nat, fuel as nat) == first_free(
                assigned,
                base@,
                counter as nat,
                out@.len(),
            ),
        decreases fuel,
    {
        let candidate = suffixed_name(base, n);
        if fuel == 0 || !contains_name(out, &candidate) {
            return (candidate, n);
        }
        n = n + 1;
        fuel = fuel - 1;
    }
}

/// The cleaned, deduplicated names of `raw`, in order; no two are equal.
pub fn deduplicate_names(raw: &Vec<String>) -> (r: Vec<String>)
    requires
        raw@.len() < u64::MAX,
    ensures
        strings_view(r@) == dedup_names(strings_view(raw@)),
        r@.len() == raw@.len(),
        forall|i: int, j: int| 0 <= i < j < r@.len() ==> r@[i]@ != r@[j]@,
{
    let ghost input = strings_view(raw@);
    let mut out: Vec<String> = Vec::new();
    let mut counter: u128 = 1;
    let mut i: usize = 0;
    assert(input.take(0) =~= Seq::<Seq<char>>::empty());
    assert(strings_view(out@) =~= Seq::<Seq<char>>::empty());
    while i < raw.len()
        invariant
            input == strings_view(raw@),
            raw@.len() < u64::MAX,
            i <= raw@.len(),
            out@.len() == i,
            dedup_state(input.take(i as int)) == (strings_view(out@), counter as nat),
        decreases raw@.len() - i,
    {
        let ghost prefix = input.take(i as int);
        proof {
            lemma_counter_bound(prefix);
            assert(counter + i < u128::MAX) by (nonlinear_arith)
                requires
                    counter <= 1 + i * i,
                    i < u64::MAX,
            ;
        }
        assert(input.take(i + 1).drop_last() =~= prefix);
        assert(input.take(i + 1).last() == raw@[i as int]@);
        let ghost old_counter = counter as nat;
        let ghost assigned = strings_view(out@);
        let c = clean_column_name(raw[i].as_str());
        let name = if !c.as_str().is_empty() && !contains_name(&out, &c) {
            c
        } else {
            let base = if c.as_str().is_empty() {
                proof {
                    reveal_strlit("column");
                }
                let b = String::from_str("column");
                assert(b@ =~= column_base());
                b
            } else {
                c
            };
            let (chosen, n) = free_name(&out, &base, counter);
            proof {
                lemma_first_free_bounds(assigned, base@, old_counter, assigned.len());
            }
            counter = n + 1;
            chosen
        };
        assert((name@, counter as nat) == assign_name(assigned, old_counter, raw@[i as int]@));
        let ghost before = strings_view(out@);
        out.push(name);
        assert(strings_view(out@) =~= before.push(name@));
        i = i + 1;
    }
    assert(input.take(i as int) =~= input);
    proof {
        lemma_dedup_unique(input);
        assert forall|a: int, b: int| 0 <= a < b < out@.len() implies out@[a]@ != out@[b]@ by {
            assert(strings_view(out@)[a] == out@[a]@);
            assert(strings_view(out@)[b] == out@[b]@);
        }
    }
    out
}

} // verus!
