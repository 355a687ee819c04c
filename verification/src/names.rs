//! Ticker names: the registry of names in use and the way a fresh
//! listing draws its name from the parameter stream.

use vstd::prelude::*;
use vstd::set_lib::{lemma_len_subset, lemma_int_range, lemma_map_size, set_int_range};
use vstd::relations::injective_on;
use crate::seed::{SplitMix64, advance, draw, lemma_advance_add};
use crate::values::EXCHANGES;
use crate::rng::{random_below, chacha_below};
use rand_chacha::ChaCha8Rng;

verus! {

/// Appends one character to a string.
///
/// Calls `String::push` from std, which adds `c` after the string's last
/// character.
#[verifier::external_body]
pub(crate) fn push_char(s: &mut String, c: char)
    ensures
        final(s)@ == old(s)@.push(c),
{
    s.push(c);
}

/// The character that shows the decimal digit `d`.
pub open spec fn digit_char(d: nat) -> char {
    if d == 0 {
        '0'
    } else if d == 1 {
        '1'
    } else if d == 2 {
        '2'
    } else if d == 3 {
        '3'
    } else if d == 4 {
        '4'
    } else if d == 5 {
        '5'
    } else if d == 6 {
        '6'
    } else if d == 7 {
        '7'
    } else if d == 8 {
        '8'
    } else {
        '9'
    }
}

/// The value of a decimal digit character.
pub open spec fn digit_value(c: char) -> int {
    if c == '0' {
        0
    } else if c == '1' {
        1
    } else if c == '2' {
        2
    } else if c == '3' {
        3
    } else if c == '4' {
        4
    } else if c == '5' {
        5
    } else if c == '6' {
        6
    } else if c == '7' {
        7
    } else if c == '8' {
        8
    } else {
        9
    }
}

/// The decimal digits of `n`, most significant first, without leading zeros.
pub open spec fn decimal(n: nat) -> Seq<char>
    decreases n,
{
    if n < 10 {
        seq![digit_char(n)]
    } else {
        decimal(n / 10).push(digit_char(n % 10))
    }
}

/// The number that a string of decimal digits reads as.
pub open spec fn decimal_value(s: Seq<char>) -> int
    decreases s.len(),
{
    if s.len() == 0 {
        0
    } else {
        decimal_value(s.drop_last()) * 10 + digit_value(s.last())
    }
}

/// Reading back the digits of `n` gives `n`.
pub proof fn lemma_decimal_value(n: nat)
    ensures
        decimal_value(decimal(n)) == n,
        decimal(n).len() >= 1,
    decreases n,
{
    lemma_digit_value((n % 10) as nat);
    let s = decimal(n);
    if n < 10 {
        assert(s.drop_last() =~= Seq::<char>::empty());
        assert(decimal_value(s.drop_last()) == 0);
        assert(s.last() == digit_char(n));
    } else {
        lemma_decimal_value(n / 10);
        assert(s.drop_last() =~= decimal(n / 10));
        assert(s.last() == digit_char((n % 10) as nat));
        assert(n == (n / 10) * 10 + n % 10);
    }
    assert(decimal_value(s) == decimal_value(s.drop_last()) * 10 + digit_value(s.last()));
}

proof fn lemma_digit_value(d: nat)
    requires
        d < 10,
    ensures
        digit_value(digit_char(d)) == d,
{
}

/// The character of a decimal digit below ten.
fn digit(d: usize) -> (c: char)
    requires
        d < 10,
    ensures
        c == digit_char(d as nat),
{
    match d {
        0 => '0',
        1 => '1',
        2 => '2',
        3 => '3',
        4 => '4',
        5 => '5',
        6 => '6',
        7 => '7',
        8 => '8',
        _ => '9',
    }
}

/// Distinct numbers have distinct decimal forms.
pub proof fn lemma_decimal_injective(a: nat, b: nat)
    requires
        decimal(a) == decimal(b),
    ensures
        a == b,
{
    lemma_decimal_value(a);
    lemma_decimal_value(b);
}

/// The number of decimal digits of small numbers.
pub proof fn lemma_decimal_len(n: nat)
    ensures
        n < 10 ==> decimal(n).len() == 1,
        10 <= n < 100 ==> decimal(n).len() == 2,
        100 <= n ==> decimal(n).len() >= 3,
    decreases n,
{
    if n >= 10 {
        lemma_decimal_len(n / 10);
        lemma_decimal_value(n / 10);
    }
}

/// Appends the decimal digits of `n`.
fn push_decimal(s: &mut String, n: usize)
    ensures
        final(s)@ == old(s)@ + decimal(n as nat),
    decreases n,
{
    if n >= 10 {
        push_decimal(s, n / 10);
    }
    let c = digit(n % 10);
    push_char(s, c);
    assert(s@ =~= old(s)@ + decimal(n as nat));
}

/// Every name in the registry, in the order of registration.
pub open spec fn views(names: Seq<String>) -> Seq<Seq<char>> {
    names.map_values(|s: String| s@)
}

/// The set of ticker names in use; no name is held twice.
pub struct NameRegistry {
    names: Vec<String>,
}

impl View for NameRegistry {
    type V = Set<Seq<char>>;

    closed spec fn view(&self) -> Set<Seq<char>> {
        views(self.names@).to_set()
    }
}

impl NameRegistry {
    /// The registry holds each name once.
    #[verifier::type_invariant]
    spec fn wf(&self) -> bool {
        views(self.names@).no_duplicates()
    }

    proof fn lemma_view_contains(&self, x: Seq<char>)
        ensures
            self@.contains(x) <==> exists|i: int| 0 <= i < self.names@.len() && self.names@[i]@ == x,
    {
        let v = views(self.names@);
        if self@.contains(x) {
            let i = choose|i: int| 0 <= i < v.len() && v[i] == x;
            assert(self.names@[i]@ == x);
        }
        if exists|i: int| 0 <= i < self.names@.len() && self.names@[i]@ == x {
            let i = choose|i: int| 0 <= i < self.names@.len() && self.names@[i]@ == x;
            assert(v[i] == x);
        }
    }

    /// A registry holds finitely many names.
    pub proof fn lemma_finite(&self)
        ensures
            self@.finite(),
    {
        vstd::seq_lib::seq_to_set_is_finite(views(self.names@));
    }

    /// An empty registry.
    pub fn new() -> (r: Self)
        ensures
            r@ == Set::<Seq<char>>::empty(),
    {
        let r = NameRegistry { names: Vec::new() };
        assert(views(r.names@) =~= Seq::<Seq<char>>::empty());
        assert(r@ =~= Set::<Seq<char>>::empty());
        r
    }

    /// The number of names in use.
    pub fn len(&self) -> (r: usize)
        ensures
            r == self@.len(),
    {
        proof {
            use_type_invariant(self);
            views(self.names@).unique_seq_to_set();
        }
        self.names.len()
    }

    /// Whether `name` is in use.
    pub fn contains(&self, name: &String) -> (r: bool)
        ensures
            r == self@.contains(name@),
    {
        proof {
            self.lemma_view_contains(name@);
        }
        let mut i: usize = 0;
        while i < self.names.len()
            invariant
                i <= self.names@.len(),
                forall|k: int| 0 <= k < i ==> self.names@[k]@ != name@,
            decreases self.names@.len() - i,
        {
            if self.names[i] == *name {
                assert(self.names@[i as int]@ == name@);
                proof {
                    self.lemma_view_contains(name@);
                }
                return true;
            }
            i += 1;
        }
        false
    }

    /// Registers a name that is not yet in use.
    fn insert_new(&mut self, name: String)
        requires
            !old(self)@.contains(name@),
        ensures
            final(self)@ == old(self)@.insert(name@),
    {
        let ghost x = name@;
        proof {
            use_type_invariant(&*self);
            self.lemma_view_contains(x);
        }
        let mut names: Vec<String> = Vec::new();
        std::mem::swap(&mut names, &mut self.names);
        names.push(name);
        proof {
            let v0 = views(old(self).names@);
            let v1 = views(names@);
            assert(v1 =~= v0.push(x));
            v0.lemma_push_to_set_commute(x);
            assert forall|a: int, b: int| 0 <= a < b < v1.len() implies v1[a] != v1[b] by {
                if b == v1.len() - 1 {
                    assert(old(self).names@[a]@ == v0[a]);
                }
            }
        }
        self.names = names;
    }

    /// Releases a name; releasing a name that is not in use changes nothing.
    pub fn remove(&mut self, name: &String)
        ensures
            final(self)@ == old(self)@.remove(name@),
    {
        proof {
            use_type_invariant(&*self);
        }
        let mut i: usize = 0;
        while i < self.names.len()
            invariant
                i <= self.names@.len(),
                self.names@ == old(self).names@,
                views(self.names@).no_duplicates(),
                forall|k: int| 0 <= k < i ==> self.names@[k]@ != name@,
            decreases self.names@.len() - i,
        {
            if self.names[i] == *name {
                let ghost v0 = views(self.names@);
                let mut names: Vec<String> = Vec::new();
                std::mem::swap(&mut names, &mut self.names);
                names.remove(i);
                proof {
                    let v1 = views(names@);
                    assert(v1 =~= v0.remove(i as int));
                    assert forall|a: int, b: int| 0 <= a < b < v1.len() implies v1[a] != v1[b] by {
                        if a >= i {
                            assert(v1[a] == v0[a + 1] && v1[b] == v0[b + 1]);
                        } else if b >= i {
                            assert(v1[a] == v0[a] && v1[b] == v0[b + 1]);
                        } else {
                            assert(v1[a] == v0[a] && v1[b] == v0[b]);
                        }
                    }
                }
                self.names = names;
                proof {
                    let v1 = views(self.names@);
                    assert forall|x: Seq<char>| #[trigger] self@.contains(x) <==> old(self)@.remove(
                        name@,
                    ).contains(x) by {
                        old(self).lemma_view_contains(x);
                        self.lemma_view_contains(x);
                        if self@.contains(x) {
                            let k = choose|k: int|
                                0 <= k < self.names@.len() && self.names@[k]@ == x;
                            if k < i {
                                assert(v0[k] == x);
                            } else {
                                assert(v0[k + 1] == x);
                                assert(v0[i as int] == name@);
                            }
                        }
                        if old(self)@.remove(name@).contains(x) {
                            let k = choose|k: int|
                                0 <= k < old(self).names@.len() && old(self).names@[k]@ == x;
                            assert(k != i);
                            if k < i {
                                assert(v1[k] == x);
                            } else {
                                assert(v1[k - 1] == x);
                            }
                        }
                    }
                    assert(self@ =~= old(self)@.remove(name@));
                }
                return;
            }
            i += 1;
        }
        proof {
            old(self).lemma_view_contains(name@);
            assert(old(self)@.remove(name@) =~= old(self)@);
        }
    }

    /// A registry holding the given names, each once.
    pub fn from_names(list: Vec<String>) -> (r: Self)
        ensures
            r@ == views(list@).to_set(),
    {
        let mut r = NameRegistry::new();
        let mut i: usize = 0;
        while i < list.len()
            invariant
                i <= list@.len(),
                    r@ == views(list@.subrange(0, i as int)).to_set(),
            decreases list@.len() - i,
        {
            let name = list[i].clone();
            proof {
                assert(views(list@.subrange(0, i + 1)) =~= views(list@.subrange(0, i as int)).push(
                    name@,
                ));
                views(list@.subrange(0, i as int)).lemma_push_to_set_commute(name@);
            }
            if !r.contains(&name) {
                r.insert_new(name);
            } else {
                assert(r@.insert(list@[i as int]@) =~= r@);
            }
            i += 1;
        }
        assert(list@.subrange(0, list@.len() as int) =~= list@);
        r
    }

    /// The names in use, each once, in no particular order.
    pub fn to_vec(&self) -> (r: Vec<String>)
        ensures
            views(r@).no_duplicates(),
            views(r@).to_set() == self@,
    {
        proof {
            use_type_invariant(self);
        }
        let mut r: Vec<String> = Vec::new();
        let mut i: usize = 0;
        while i < self.names.len()
            invariant
                i <= self.names@.len(),
                views(r@) =~= views(self.names@.subrange(0, i as int)),
            decreases self.names@.len() - i,
        {
            let c = self.names[i].clone();
            assert(c == self.names@[i as int]);
            let ghost r0 = r@;
            r.push(c);
            assert(r@ == r0.push(c));
            assert(views(r@) =~= views(r0).push(c@));
            assert(self.names@.subrange(0, i + 1) =~= self.names@.subrange(0, i as int).push(c));
            assert(views(r@) =~= views(self.names@.subrange(0, i + 1)));
            i += 1;
        }
        assert(self.names@.subrange(0, self.names@.len() as int) =~= self.names@);
        r
    }
}

/// The characters a nameplate is spelt with.
pub open spec fn alphabet() -> Seq<char> {
    seq![
        'A', 'B', 'C', 'D', 'E', 'F', 'G', 'H', 'K', 'L', 'M', 'N', 'O', 'P', 'Q', 'R', 'S',
        'T', 'U', 'V', 'W', 'X', 'Y', 'Z', '1', '2', '3', '4', '5', '6', '7', '8', '9',
    ]
}

/// Number of tries at a random name before numbered names are used.
pub const NAME_ATTEMPTS: usize = 64;

/// Length of the names listed on exchange `market_id`.
pub open spec fn nameplate_len(market_id: u16) -> nat {
    if market_id == 0 {
        3
    } else if market_id == 1 {
        4
    } else if market_id == 2 {
        3
    } else {
        5
    }
}

/// The character that a drawn word picks from the alphabet.
pub open spec fn pick(x: u64) -> char {
    alphabet()[(x as usize) as int % 33]
}

/// The name of `len` characters spelt by the draws of a stream at state `s`.
pub open spec fn candidate(s: u64, len: nat) -> Seq<char> {
    Seq::new(len, |k: int| pick(draw(s, k as nat)))
}

/// The `j`-th try (from 0) at a name of `len` characters from state `s`.
pub open spec fn attempt(s: u64, len: nat, j: nat) -> Seq<char> {
    candidate(advance(s, j * len), len)
}

/// The numbered name used once random tries are exhausted.
pub open spec fn fallback_name(n: nat) -> Seq<char> {
    seq!['Z'] + decimal(n)
}

/// `name` is what a draw from state `s` with names `used` taken yields,
/// leaving the stream at `s_after`: the first free random try, or, when
/// every try is taken, the first free numbered name from `Z{used.len()}` on.
pub open spec fn drawn_by(
    s: u64,
    len: nat,
    used: Set<Seq<char>>,
    name: Seq<char>,
    s_after: u64,
) -> bool {
    ||| exists|j: nat|
        {
            &&& j < NAME_ATTEMPTS
            &&& name == attempt(s, len, j)
            &&& forall|i: nat| i < j ==> used.contains(#[trigger] attempt(s, len, i))
            &&& s_after == advance(s, (j + 1) * len)
        }
    ||| {
        &&& forall|i: nat| i < NAME_ATTEMPTS ==> used.contains(#[trigger] attempt(s, len, i))
        &&& s_after == advance(s, NAME_ATTEMPTS as nat * len)
        &&& exists|n: nat|
            {
                &&& used.len() <= n
                &&& name == fallback_name(n)
                &&& forall|m: nat| used.len() <= m < n ==> used.contains(#[trigger] fallback_name(m))
            }
    }
}

/// A draw is a function of the stream's state, the exchange and the names
/// in use: replaying it from the same point yields the same name and
/// leaves the stream at the same state.
pub proof fn lemma_draw_deterministic(
    s: u64,
    len: nat,
    used: Set<Seq<char>>,
    name1: Seq<char>,
    after1: u64,
    name2: Seq<char>,
    after2: u64,
)
    requires
        drawn_by(s, len, used, name1, after1),
        drawn_by(s, len, used, name2, after2),
        !used.contains(name1),
        !used.contains(name2),
    ensures
        name1 == name2,
        after1 == after2,
{
    let first1 = exists|j: nat|
        {
            &&& j < NAME_ATTEMPTS
            &&& name1 == attempt(s, len, j)
            &&& forall|i: nat| i < j ==> used.contains(#[trigger] attempt(s, len, i))
            &&& after1 == advance(s, (j + 1) * len)
        };
    let first2 = exists|j: nat|
        {
            &&& j < NAME_ATTEMPTS
            &&& name2 == attempt(s, len, j)
            &&& forall|i: nat| i < j ==> used.contains(#[trigger] attempt(s, len, i))
            &&& after2 == advance(s, (j + 1) * len)
        };
    if first1 {
        let j1 = choose|j: nat|
            {
                &&& j < NAME_ATTEMPTS
                &&& name1 == attempt(s, len, j)
                &&& forall|i: nat| i < j ==> used.contains(#[trigger] attempt(s, len, i))
                &&& after1 == advance(s, (j + 1) * len)
            };
        if first2 {
            let j2 = choose|j: nat|
                {
                    &&& j < NAME_ATTEMPTS
                    &&& name2 == attempt(s, len, j)
                    &&& forall|i: nat| i < j ==> used.contains(#[trigger] attempt(s, len, i))
                    &&& after2 == advance(s, (j + 1) * len)
                };
            if j1 < j2 {
                assert(used.contains(attempt(s, len, j1)));
            } else if j2 < j1 {
                assert(used.contains(attempt(s, len, j2)));
            }
        } else {
            assert(used.contains(attempt(s, len, j1)));
        }
    } else {
        if first2 {
            let j2 = choose|j: nat|
                {
                    &&& j < NAME_ATTEMPTS
                    &&& name2 == attempt(s, len, j)
                    &&& forall|i: nat| i < j ==> used.contains(#[trigger] attempt(s, len, i))
                    &&& after2 == advance(s, (j + 1) * len)
                };
            assert(used.contains(attempt(s, len, j2)));
        } else {
            let n1 = choose|n: nat|
                {
                    &&& used.len() <= n
                    &&& name1 == fallback_name(n)
                    &&& forall|m: nat| used.len() <= m < n ==> used.contains(#[trigger] fallback_name(m))
                };
            let n2 = choose|n: nat|
                {
                    &&& used.len() <= n
                    &&& name2 == fallback_name(n)
                    &&& forall|m: nat| used.len() <= m < n ==> used.contains(#[trigger] fallback_name(m))
                };
            if n1 < n2 {
                assert(used.contains(fallback_name(n1)));
            } else if n2 < n1 {
                assert(used.contains(fallback_name(n2)));
            }
        }
    }
}

/// Listing the names in use and building a registry from that list gives
/// back the same names: a saved game restores its registry, and the list
/// holds each name once.
pub proof fn lemma_names_round_trip(
    saved: Set<Seq<char>>,
    list: Seq<String>,
    restored: Set<Seq<char>>,
)
    requires
        views(list).no_duplicates(),
        views(list).to_set() == saved,
        restored == views(list).to_set(),
    ensures
        restored == saved,
        restored.len() == list.len(),
{
    views(list).unique_seq_to_set();
}

/// The alphabet as a vector.
fn alphabet_chars() -> (v: Vec<char>)
    ensures
        v@ == alphabet(),
{
    let v = vec![
        'A', 'B', 'C', 'D', 'E', 'F', 'G', 'H', 'K', 'L', 'M', 'N', 'O', 'P', 'Q', 'R', 'S',
        'T', 'U', 'V', 'W', 'X', 'Y', 'Z', '1', '2', '3', '4', '5', '6', '7', '8', '9',
    ];
    assert(v@ =~= alphabet());
    v
}

/// Length of the names listed on exchange `market_id`.
pub fn nameplate_length(market_id: u16) -> (r: usize)
    requires
        market_id < EXCHANGES,
    ensures
        r == nameplate_len(market_id),
{
    match market_id {
        0 => 3,
        1 => 4,
        2 => 3,
        _ => 5,
    }
}

/// Spells one name of `len` characters from the stream.
fn draw_candidate(pp: &mut SplitMix64, len: usize, charset: &Vec<char>) -> (name: String)
    requires
        charset@ == alphabet(),
    ensures
        name@ == candidate(old(pp)@, len as nat),
        final(pp)@ == advance(old(pp)@, len as nat),
{
    let mut name = String::new();
    let mut k: usize = 0;
    while k < len
        invariant
            k <= len,
            charset@ == alphabet(),
            pp@ == advance(old(pp)@, k as nat),
            name@ == candidate(old(pp)@, k as nat),
        decreases len - k,
    {
        let x = pp.next_u64();
        let c = charset[(x as usize) % charset.len()];
        push_char(&mut name, c);
        assert(name@ =~= candidate(old(pp)@, (k + 1) as nat));
        k += 1;
    }
    name
}

/// Numbered names at or past `base` that are all taken number at most
/// as many as the taken names.
proof fn lemma_fallback_bound(used: Set<Seq<char>>, base: nat, n: nat)
    requires
        used.finite(),
        base <= n,
        forall|m: nat| base <= m <= n ==> used.contains(#[trigger] fallback_name(m)),
    ensures
        n + 1 - base <= used.len(),
{
    let x = set_int_range(base as int, n as int + 1);
    let f = |m: int| fallback_name(m as nat);
    let y = x.map(f);
    lemma_int_range(base as int, n as int + 1);
    assert forall|a: int, b: int| x.contains(a) && x.contains(b) && #[trigger] f(a) == #[trigger] f(
        b,
    ) implies a == b by {
        assert(f(a).subrange(1, f(a).len() as int) =~= decimal(a as nat));
        assert(f(b).subrange(1, f(b).len() as int) =~= decimal(b as nat));
        lemma_decimal_injective(a as nat, b as nat);
    }
    assert(injective_on(f, x));
    lemma_map_size(x, y, f);
    assert forall|z: Seq<char>| y.contains(z) implies used.contains(z) by {
        let m = choose|m: int| x.contains(m) && z == f(m);
        assert(used.contains(fallback_name(m as nat)));
    }
    lemma_len_subset(y, used);
}

/// Draws a fresh ticker name for exchange `market_id` and registers it.
///
/// Up to [`NAME_ATTEMPTS`] names of the exchange's length are spelt from
/// the stream; the first that is not in use is taken. If all are in use,
/// the first free name among `Z{n}` for `n` from the number of names in
/// use upward is taken instead.
pub fn draw_nameplate(pp: &mut SplitMix64, market_id: u16, used: &mut NameRegistry) -> (name:
    String)
    requires
        market_id < EXCHANGES,
        old(used)@.len() < usize::MAX / 2,
    ensures
        !old(used)@.contains(name@),
        final(used)@ == old(used)@.insert(name@),
        final(used)@.len() == old(used)@.len() + 1,
        drawn_by(old(pp)@, nameplate_len(market_id), old(used)@, name@, final(pp)@),
{
    let len = nameplate_length(market_id);
    let charset = alphabet_chars();
    proof {
        vstd::seq_lib::seq_to_set_is_finite(views(used.names@));
    }
    let ghost s0 = old(pp)@;
    let ghost lenn = len as nat;
    let mut j: usize = 0;
    while j < NAME_ATTEMPTS
        invariant
            j <= NAME_ATTEMPTS,
            charset@ == alphabet(),
            len == nameplate_len(market_id),
            lenn == len,
            s0 == old(pp)@,
            used@ == old(used)@,
            used@.finite(),
            pp@ == advance(s0, j as nat * lenn),
            forall|i: nat| i < j ==> used@.contains(#[trigger] attempt(s0, lenn, i)),
        decreases NAME_ATTEMPTS - j,
    {
        let name = draw_candidate(pp, len, &charset);
        proof {
            lemma_advance_add(s0, j as nat * lenn, lenn);
            assert((j as nat + 1) * lenn == j as nat * lenn + lenn) by (nonlinear_arith);
            assert(name@ == attempt(s0, lenn, j as nat));
        }
        if !used.contains(&name) {
            let kept = name.clone();
            used.insert_new(kept);
            proof {
                assert(forall|i: nat| i < j ==> old(used)@.contains(#[trigger] attempt(s0, lenn, i)));
            }
            return name;
        }
        j += 1;
    }
    let base = used.len();
    let mut n = base;
    loop
        invariant
            base == used@.len(),
            base < usize::MAX / 2,
            base <= n <= 2 * base,
            used@.finite(),
            used@ == old(used)@,
            s0 == old(pp)@,
            lenn == nameplate_len(market_id),
            pp@ == advance(s0, NAME_ATTEMPTS as nat * lenn),
            forall|i: nat| i < NAME_ATTEMPTS ==> used@.contains(#[trigger] attempt(s0, lenn, i)),
            forall|m: nat| base <= m < n ==> used@.contains(#[trigger] fallback_name(m)),
        decreases 2 * base - n,
    {
        let mut s = String::new();
        push_char(&mut s, 'Z');
        push_decimal(&mut s, n);
        assert(s@ =~= fallback_name(n as nat));
        if !used.contains(&s) {
            let kept = s.clone();
            used.insert_new(kept);
            return s;
        }
        proof {
            lemma_fallback_bound(used@, base as nat, n as nat);
        }
        n += 1;
    }
}

/// `s` padded on the left with zeros to at least `w` characters.
pub open spec fn zero_padded(s: Seq<char>, w: nat) -> Seq<char> {
    if s.len() < w {
        Seq::new((w - s.len()) as nat, |k: int| '0') + s
    } else {
        s
    }
}

/// The name of broker `i`: `bot_` and the number, at least three digits wide.
pub open spec fn broker_label(i: nat) -> Seq<char> {
    seq!['b', 'o', 't', '_'] + zero_padded(decimal(i), 3)
}

/// The name of broker `i`, as in `bot_007`.
pub fn broker_name(i: usize) -> (r: String)
    ensures
        r@ == broker_label(i as nat),
{
    proof {
        lemma_decimal_len(i as nat);
    }
    let mut s = String::new();
    push_char(&mut s, 'b');
    push_char(&mut s, 'o');
    push_char(&mut s, 't');
    push_char(&mut s, '_');
    if i < 10 {
        push_char(&mut s, '0');
        push_char(&mut s, '0');
    } else if i < 100 {
        push_char(&mut s, '0');
    }
    push_decimal(&mut s, i);
    assert(s@ =~= broker_label(i as nat));
    s
}

/// Whether `c` is one of the ten decimal digit characters.
pub open spec fn is_decimal_digit(c: char) -> bool {
    '0' <= c && c <= '9'
}

/// The decimal form of a number is made of digit characters, does not
/// start with `0` unless the number is 0, and has at most three digits
/// exactly when the number is below a thousand.
pub proof fn lemma_decimal_form(n: nat)
    ensures
        forall|k: int| 0 <= k < decimal(n).len() ==> is_decimal_digit(#[trigger] decimal(n)[k]),
        n >= 1 ==> decimal(n)[0] != '0',
        n < 1000 <==> decimal(n).len() <= 3,
    decreases n,
{
    lemma_decimal_value(n);
    assert(is_decimal_digit(digit_char(n % 10)));
    if n >= 10 {
        lemma_decimal_form(n / 10);
        lemma_decimal_value(n / 10);
        lemma_decimal_len(n / 10);
        let s = decimal(n / 10);
        assert(decimal(n) == s.push(digit_char(n % 10)));
        assert(decimal(n)[0] == s[0]);
        assert forall|k: int| 0 <= k < decimal(n).len() implies is_decimal_digit(
            #[trigger] decimal(n)[k],
        ) by {
            if k < s.len() {
                assert(decimal(n)[k] == s[k]);
            }
        }
    } else {
        assert(decimal(n) == seq![digit_char(n)]);
    }
}

/// Zeros in front of a string of digits do not change the number it reads as.
proof fn lemma_leading_zeros(z: Seq<char>, s: Seq<char>)
    requires
        forall|k: int| 0 <= k < z.len() ==> z[k] == '0',
    ensures
        decimal_value(z + s) == decimal_value(s),
    decreases s.len() + z.len(),
{
    if s.len() == 0 {
        assert(z + s =~= z);
        if z.len() > 0 {
            lemma_leading_zeros(z.drop_last(), s);
            assert(z.drop_last() + s =~= z.drop_last());
            assert(z.last() == '0');
        }
    } else {
        lemma_leading_zeros(z, s.drop_last());
        assert((z + s).drop_last() =~= z + s.drop_last());
        assert((z + s).last() == s.last());
    }
}

/// The name of broker `i` is `bot_` followed by digits only, which read as
/// `i`; below a thousand there are exactly three of them (seven characters
/// in all), and from a thousand on there are more, with no leading zero.
pub proof fn lemma_broker_label_shape(i: nat)
    ensures
        broker_label(i).subrange(0, 4) == seq!['b', 'o', 't', '_'],
        forall|k: int|
            4 <= k < broker_label(i).len() ==> is_decimal_digit(#[trigger] broker_label(i)[k]),
        decimal_value(broker_label(i).subrange(4, broker_label(i).len() as int)) == i,
        i < 1000 ==> broker_label(i).len() == 7,
        i >= 1000 ==> broker_label(i).len() > 7 && broker_label(i)[4] != '0',
{
    let l = broker_label(i);
    let d = decimal(i);
    lemma_decimal_form(i);
    lemma_decimal_value(i);
    let p = zero_padded(d, 3);
    assert(l.subrange(0, 4) =~= seq!['b', 'o', 't', '_']);
    assert(l.subrange(4, l.len() as int) =~= p);
    if d.len() < 3 {
        let z = Seq::new((3 - d.len()) as nat, |k: int| '0');
        assert(p == z + d);
        lemma_leading_zeros(z, d);
        assert forall|k: int| 4 <= k < l.len() implies is_decimal_digit(#[trigger] l[k]) by {
            if k - 4 >= z.len() {
                assert(l[k] == d[k - 4 - z.len()]);
            } else {
                assert(l[k] == '0');
            }
        }
    } else {
        assert forall|k: int| 4 <= k < l.len() implies is_decimal_digit(#[trigger] l[k]) by {
            assert(l[k] == d[k - 4]);
        }
        if i >= 1000 {
            assert(l[4] == d[0]);
        }
    }
}

/// The characters of the wider ticker alphabet: letters and all digits.
pub open spec fn ticker_charset() -> Seq<char> {
    seq![
        'A', 'B', 'C', 'D', 'E', 'F', 'G', 'H', 'I', 'J', 'K', 'L', 'M', 'N', 'O', 'P', 'Q', 'R',
        'S', 'T', 'U', 'V', 'W', 'X', 'Y', 'Z', '0', '1', '2', '3', '4', '5', '6', '7', '8', '9',
    ]
}

/// The ticker spelt by positions in [`ticker_charset`].
pub open spec fn ticker_of(indices: Seq<usize>) -> Seq<char> {
    Seq::new(indices.len(), |k: int| ticker_charset()[indices[k] as int])
}

/// The ticker whose characters sit at the given positions of
/// [`ticker_charset`].
pub fn ticker_from_draws(indices: &Vec<usize>) -> (r: String)
    requires
        forall|k: int| 0 <= k < indices@.len() ==> indices@[k] < 36,
    ensures
        r@ == ticker_of(indices@),
{
    let charset = vec![
        'A', 'B', 'C', 'D', 'E', 'F', 'G', 'H', 'I', 'J', 'K', 'L', 'M', 'N', 'O', 'P', 'Q', 'R',
        'S', 'T', 'U', 'V', 'W', 'X', 'Y', 'Z', '0', '1', '2', '3', '4', '5', '6', '7', '8', '9',
    ];
    assert(charset@ =~= ticker_charset());
    let mut name = String::new();
    let mut k: usize = 0;
    while k < indices.len()
        invariant
            k <= indices@.len(),
            charset@ == ticker_charset(),
            forall|j: int| 0 <= j < indices@.len() ==> indices@[j] < 36,
            name@ == ticker_of(indices@.subrange(0, k as int)),
        decreases indices@.len() - k,
    {
        let c = charset[indices[k]];
        push_char(&mut name, c);
        assert(name@ =~= ticker_of(indices@.subrange(0, k + 1)));
        k += 1;
    }
    assert(indices@.subrange(0, indices@.len() as int) =~= indices@);
    name
}

/// The generator after `k` character draws (each a position in `0..36`)
/// from `g`.
pub open spec fn after_char_draws(g: ChaCha8Rng, k: nat) -> ChaCha8Rng
    decreases k,
{
    if k == 0 {
        g
    } else {
        chacha_below(after_char_draws(g, (k - 1) as nat), 0, 36).1
    }
}

/// The position drawn for character `k` when the character draws start
/// from `g`.
pub open spec fn char_draw(g: ChaCha8Rng, k: nat) -> usize {
    chacha_below(after_char_draws(g, k), 0, 36).0
}

/// The length a ticker drawn from `g` has: a draw in `3..6`.
pub open spec fn ticker_len_draw(g: ChaCha8Rng) -> usize {
    chacha_below(g, 3, 6).0
}

/// The generator once the length of a ticker has been drawn from `g`.
pub open spec fn after_len_draw(g: ChaCha8Rng) -> ChaCha8Rng {
    chacha_below(g, 3, 6).1
}

/// The ticker drawn from `g`: its length first, then one position in
/// [`ticker_charset`] per character.
pub open spec fn ticker_drawn(g: ChaCha8Rng) -> Seq<char> {
    ticker_of(
        Seq::new(ticker_len_draw(g) as nat, |k: int| char_draw(after_len_draw(g), k as nat)),
    )
}

/// A random ticker of three to five characters, each taken from
/// [`ticker_charset`], drawn from the main random stream: first the length,
/// then one position per character.
pub fn form_ticker_nameplate(rng: &mut ChaCha8Rng) -> (r: String)
    ensures
        r@ == ticker_drawn(*old(rng)),
        *final(rng) == after_char_draws(after_len_draw(*old(rng)), ticker_len_draw(*old(rng)) as nat),
        3 <= r@.len() <= 5,
        forall|k: int| 0 <= k < r@.len() ==> ticker_charset().contains(#[trigger] r@[k]),
{
    let len = random_below(rng, 3, 6);
    let ghost g1 = *rng;
    let mut indices: Vec<usize> = Vec::new();
    let mut k: usize = 0;
    while k < len
        invariant
            k <= len <= 5,
            len == ticker_len_draw(*old(rng)),
            g1 == after_len_draw(*old(rng)),
            *rng == after_char_draws(g1, k as nat),
            indices@ =~= Seq::new(k as nat, |j: int| char_draw(g1, j as nat)),
            forall|j: int| 0 <= j < indices@.len() ==> indices@[j] < 36,
        decreases len - k,
    {
        let index = random_below(rng, 0, 36);
        indices.push(index);
        k += 1;
    }
    let r = ticker_from_draws(&indices);
    assert forall|j: int| 0 <= j < r@.len() implies ticker_charset().contains(#[trigger] r@[j]) by {
        assert(ticker_charset()[indices@[j] as int] == r@[j]);
    }
    r
}

} // verus!
