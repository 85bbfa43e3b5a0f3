//! The value types handed to an acquisition: the target identity, its scopes,
//! the requested lifetime, a delegation chain, and bearer tokens.
use vstd::prelude::*;

use crate::text::{
    all_digits, digits_value, decimal, is_digit, is_white_space, join_commas, lemma_decimal_reads_back,
    lemma_digits_value_grows,
    lemma_lex_asymmetric, lemma_lex_irreflexive, lemma_lex_total, lemma_lex_transitive,
    lex_less, push_char, push_decimal, split_commas, str_less,
    strictly_sorted, white_space,
};

verus! {

broadcast use vstd::seq_lib::group_seq_properties;

/// An opaque bearer string.
#[derive(Debug)]
pub struct AccessToken(String);

impl View for AccessToken {
    type V = Seq<char>;

    closed spec fn view(&self) -> Seq<char> {
        self.0@
    }
}

impl AccessToken {
    pub fn new(value: String) -> (r: AccessToken)
        ensures
            r@ == value@,
    {
        AccessToken(value)
    }

    /// Any text is a token.
    pub fn from_str(s: &str) -> (r: Result<AccessToken, String>)
        ensures
            r is Ok,
            r->Ok_0@ == s@,
    {
        Ok(AccessToken(s.to_owned()))
    }

    pub fn as_str(&self) -> (r: &str)
        ensures
            r@ == self@,
    {
        self.0.as_str()
    }

    /// An identical token.
    pub fn duplicate(&self) -> (r: AccessToken)
        ensures
            r == *self,
    {
        AccessToken(self.0.clone())
    }
}

/// The service identity to impersonate, such as an account's e-mail address.
#[derive(Debug, Clone)]
pub struct Email(String);

impl View for Email {
    type V = Seq<char>;

    closed spec fn view(&self) -> Seq<char> {
        self.0@
    }
}

impl Email {
    /// Any text names an identity.
    pub fn from_str(s: &str) -> (r: Result<Email, String>)
        ensures
            r is Ok,
            r->Ok_0@ == s@,
    {
        Ok(Email(s.to_owned()))
    }

    pub fn as_str(&self) -> (r: &str)
        ensures
            r@ == self@,
    {
        self.0.as_str()
    }

    /// The identity's text, as it is displayed.
    pub fn to_text(&self) -> (r: String)
        ensures
            r@ == self@,
    {
        self.0.clone()
    }
}

/// A chain of intermediate identities, in order.
#[derive(Debug, Clone)]
pub struct Delegates(Vec<String>);

impl View for Delegates {
    type V = Seq<Seq<char>>;

    closed spec fn view(&self) -> Seq<Seq<char>> {
        self.0@.map_values(|x: String| x@)
    }
}

impl Delegates {
    pub fn new(chain: Vec<String>) -> (r: Delegates)
        ensures
            r@ == chain@.map_values(|x: String| x@),
    {
        Delegates(chain)
    }

    pub fn items(&self) -> (r: &Vec<String>)
        ensures
            r@.map_values(|x: String| x@) == self@,
    {
        &self.0
    }
}

/// A set of permission scopes, kept sorted by code point without repeats, so
/// that two values hold the same set exactly when they are equal.
#[derive(Debug, Clone)]
pub struct Scopes(Vec<String>);

impl View for Scopes {
    type V = Seq<Seq<char>>;

    closed spec fn view(&self) -> Seq<Seq<char>> {
        self.0@.map_values(|x: String| x@)
    }
}

/// The scopes granted when the caller names none.
pub open spec fn default_scope_set() -> Set<Seq<char>> {
    set![
        "openid"@,
        "https://www.googleapis.com/auth/cloud-platform"@,
        "profile"@,
        "email"@,
        "https://www.googleapis.com/auth/userinfo.email"@,
        "https://www.googleapis.com/auth/userinfo.profile"@,
    ]
}

impl Scopes {
    /// The scopes are held in strictly ascending code-point order, hence
    /// without repeats.
    pub open spec fn wf(&self) -> bool {
        strictly_sorted(self@)
    }

    /// The set of scopes held.
    pub open spec fn scope_set(&self) -> Set<Seq<char>> {
        self@.to_set()
    }

    fn empty() -> (r: Scopes)
        ensures
            r.wf(),
            r@ == Seq::<Seq<char>>::empty(),
    {
        let r = Scopes(Vec::new());
        assert(r@ =~= Seq::<Seq<char>>::empty());
        r
    }

    /// Adds one scope; nothing changes where it is held already.
    pub fn insert(&mut self, scope: String)
        requires
            old(self).wf(),
        ensures
            final(self).wf(),
            final(self).scope_set() == old(self).scope_set().insert(scope@),
    {
        let ghost v = self@;
        let n = self.0.len();
        let mut p: usize = 0;
        while p < n && str_less(self.0[p].as_str(), scope.as_str())
            invariant
                p <= n,
                n == self.0@.len(),
                v == self@,
                self@ == self.0@.map_values(|x: String| x@),
                forall|k: int| 0 <= k < p ==> lex_less(#[trigger] v[k], scope@),
            decreases n - p,
        {
            p = p + 1;
        }
        if p < n && self.0[p] == scope {
            assert(v.to_set() =~= v.to_set().insert(scope@)) by {
                assert(v[p as int] == scope@);
            }
            return;
        }
        proof {
            if p < n {
                assert(!lex_less(v[p as int], scope@));
                lemma_lex_total(v[p as int], scope@);
            }
        }
        self.0.insert(p, scope);
        proof {
            let w = self@;
            assert(w =~= v.insert(p as int, scope@));
            assert forall|k: int| p < k < w.len() implies lex_less(scope@, #[trigger] w[k]) by {
                assert(w[k] == v[k - 1]);
                if k - 1 > p {
                    lemma_lex_transitive(scope@, v[p as int], v[k - 1]);
                }
            }
            assert forall|i: int, j: int| 0 <= i < j < w.len() implies lex_less(#[trigger] w[i], #[trigger] w[j]) by {
                if j < p {
                } else if j == p {
                } else if i < p {
                    lemma_lex_transitive(w[i], scope@, w[j]);
                } else if i == p {
                } else {
                    assert(w[i] == v[i - 1] && w[j] == v[j - 1]);
                }
            }
            assert(w.to_set() =~= v.to_set().insert(scope@)) by {
                assert forall|y: Seq<char>| #[trigger] v.contains(y) implies w.contains(y) by {
                    let k = choose|k: int| 0 <= k < v.len() && v[k] == y;
                    if k < p {
                        assert(w[k] == y);
                    } else {
                        assert(w[k + 1] == y);
                    }
                }
                assert(w[p as int] == scope@);
                assert forall|y: Seq<char>| #[trigger] w.contains(y) implies v.contains(y) || y == scope@ by {
                    let k = choose|k: int| 0 <= k < w.len() && w[k] == y;
                    if k < p {
                        assert(v[k] == y);
                    } else if k > p {
                        assert(v[k - 1] == y);
                    }
                }
            }
        }
    }

    /// The set of the given scopes, repeats collapsed.
    pub fn from_list(items: Vec<String>) -> (r: Scopes)
        ensures
            r.wf(),
            r.scope_set() == items@.map_values(|x: String| x@).to_set(),
    {
        let ghost views = items@.map_values(|x: String| x@);
        let mut r = Scopes::empty();
        let mut rest = items;
        assert(r.scope_set() + views.to_set() =~= views.to_set());
        while rest.len() > 0
            invariant
                r.wf(),
                r.scope_set() + rest@.map_values(|x: String| x@).to_set() == views.to_set(),
            decreases rest@.len(),
        {
            let ghost before_rest = rest@;
            let x = rest.pop().unwrap();
            let ghost xv = x@;
            r.insert(x);
            proof {
                assert(before_rest.map_values(|x: String| x@) =~= rest@.map_values(|x: String| x@).push(xv));
                assert(r.scope_set() + rest@.map_values(|x: String| x@).to_set() =~= views.to_set());
            }
        }
        assert(rest@.map_values(|x: String| x@).to_set() =~= Set::<Seq<char>>::empty());
        assert(r.scope_set() =~= views.to_set());
        r
    }

    /// Parses a comma-separated list: every piece between commas is a scope.
    pub fn from_str(s: &str) -> (r: Result<Scopes, String>)
        ensures
            r is Ok,
            r->Ok_0.wf(),
            r->Ok_0.scope_set() == split_commas(s@).to_set(),
    {
        let n = s.unicode_len();
        let mut r = Scopes::empty();
        let mut cur = String::new();
        let ghost mut done: Seq<Seq<char>> = Seq::empty();
        let mut i: usize = 0;
        assert(s@.subrange(0, 0) =~= Seq::<char>::empty());
        assert(split_commas(Seq::<char>::empty()) =~= done.push(cur@));
        while i < n
            invariant
                i <= n,
                n == s@.len(),
                r.wf(),
                r.scope_set() == done.to_set(),
                split_commas(s@.subrange(0, i as int)) == done.push(cur@),
            decreases n - i,
        {
            let c = s.get_char(i);
            let ghost t = s@.subrange(0, i + 1);
            proof {
                assert(t.drop_last() =~= s@.subrange(0, i as int));
                assert(t.last() == c);
            }
            if c == ',' {
                let mut piece = String::new();
                std::mem::swap(&mut cur, &mut piece);
                proof {
                    done = done.push(piece@);
                }
                r.insert(piece);
                assert(split_commas(t) =~= done.push(cur@));
            } else {
                push_char(&mut cur, c);
                assert(split_commas(t) =~= done.push(cur@));
            }
            i = i + 1;
        }
        assert(s@.subrange(0, n as int) =~= s@);
        proof {
            done = done.push(cur@);
        }
        r.insert(cur);
        Ok(r)
    }

    /// The strings held, in code-point order.
    pub fn items(&self) -> (r: &Vec<String>)
        ensures
            r@.map_values(|x: String| x@) == self@,
    {
        &self.0
    }

    pub fn len(&self) -> (r: usize)
        ensures
            r == self@.len(),
    {
        self.0.len()
    }

    /// The default scopes together with `additional`. (The scopes of `self`
    /// play no part: the result always starts from the defaults.)
    pub fn append_scopes(&self, additional_scopes: Scopes) -> (r: Scopes)
        ensures
            r.wf(),
            r.scope_set() == default_scope_set().union(additional_scopes.scope_set()),
    {
        let mut r = Scopes::default();
        let Scopes(mut rest) = additional_scopes;
        let ghost all = rest@.map_values(|x: String| x@);
        while rest.len() > 0
            invariant
                r.wf(),
                r.scope_set() + rest@.map_values(|x: String| x@).to_set() == default_scope_set() + all.to_set(),
            decreases rest@.len(),
        {
            let ghost before_rest = rest@;
            let x = rest.pop().unwrap();
            let ghost xv = x@;
            r.insert(x);
            proof {
                assert(before_rest.map_values(|x: String| x@) =~= rest@.map_values(|x: String| x@).push(xv));
                assert(r.scope_set() + rest@.map_values(|x: String| x@).to_set() =~= default_scope_set()
                    + all.to_set());
            }
        }
        assert(rest@.map_values(|x: String| x@).to_set() =~= Set::<Seq<char>>::empty());
        assert(r.scope_set() =~= default_scope_set().union(all.to_set()));
        r
    }

    /// The scopes joined by commas, in code-point order.
    pub fn to_text(&self) -> (r: String)
        ensures
            r@ == join_commas(self@),
    {
        let mut out = String::new();
        let mut i: usize = 0;
        assert(self@.subrange(0, 0) =~= Seq::<Seq<char>>::empty());
        while i < self.0.len()
            invariant
                i <= self@.len(),
                self@ == self.0@.map_values(|x: String| x@),
                out@ == join_commas(self@.subrange(0, i as int)),
            decreases self@.len() - i,
        {
            let ghost before = out@;
            if i > 0 {
                push_char(&mut out, ',');
            }
            out.append(self.0[i].as_str());
            proof {
                let t = self@.subrange(0, i + 1);
                assert(t.drop_last() =~= self@.subrange(0, i as int));
                assert(out@ =~= join_commas(t));
            }
            i = i + 1;
        }
        assert(self@.subrange(0, i as int) =~= self@);
        out
    }
}

/// Two well-formed scope values are equal exactly when they hold the same set.
pub proof fn lemma_scopes_equal_iff_same_set(a: &Scopes, b: &Scopes)
    requires
        a.wf(),
        b.wf(),
    ensures
        a@ == b@ <==> a.scope_set() == b.scope_set(),
{
    if a.scope_set() == b.scope_set() {
        lemma_sorted_same_set(a@, b@);
    }
}

/// A set of strings has one strictly ascending listing: two such listings of
/// the same set are equal.
pub proof fn lemma_sorted_same_set(a: Seq<Seq<char>>, b: Seq<Seq<char>>)
    requires
        strictly_sorted(a),
        strictly_sorted(b),
        a.to_set() == b.to_set(),
    ensures
        a == b,
    decreases a.len(),
{
    if a.len() == 0 {
        if b.len() > 0 {
            assert(b.to_set().contains(b[0]));
        }
        assert(a =~= b);
    } else if b.len() == 0 {
        assert(a.to_set().contains(a[0]));
    } else {
        // Both heads are the least element of the common set.
        assert(b.to_set().contains(a[0]));
        assert(a.to_set().contains(b[0]));
        let i = choose|i: int| 0 <= i < b.len() && b[i] == a[0];
        let j = choose|j: int| 0 <= j < a.len() && a[j] == b[0];
        if i > 0 {
            assert(lex_less(b[0], a[0]));
            if j > 0 {
                assert(lex_less(a[0], b[0]));
                lemma_lex_asymmetric(a[0], b[0]);
            } else {
                lemma_lex_irreflexive(a[0]);
            }
        }
        assert(a[0] == b[0]);
        let ta = a.drop_first();
        let tb = b.drop_first();
        assert forall|y: Seq<char>| ta.contains(y) implies tb.contains(y) by {
            let k = choose|k: int| 0 <= k < ta.len() && ta[k] == y;
            assert(lex_less(a[0], a[k + 1]));
            assert(b.to_set().contains(y));
            let m = choose|m: int| 0 <= m < b.len() && b[m] == y;
            if m == 0 {
                lemma_lex_irreflexive(y);
            }
            assert(tb[m - 1] == y);
        }
        assert forall|y: Seq<char>| tb.contains(y) implies ta.contains(y) by {
            let k = choose|k: int| 0 <= k < tb.len() && tb[k] == y;
            assert(lex_less(b[0], b[k + 1]));
            assert(a.to_set().contains(y));
            let m = choose|m: int| 0 <= m < a.len() && a[m] == y;
            if m == 0 {
                lemma_lex_irreflexive(y);
            }
            assert(ta[m - 1] == y);
        }
        assert(ta.to_set() =~= tb.to_set());
        assert forall|p: int, q: int| 0 <= p < q < ta.len() implies lex_less(#[trigger] ta[p], #[trigger] ta[q]) by {
            assert(ta[p] == a[p + 1] && ta[q] == a[q + 1]);
        }
        assert forall|p: int, q: int| 0 <= p < q < tb.len() implies lex_less(#[trigger] tb[p], #[trigger] tb[q]) by {
            assert(tb[p] == b[p + 1] && tb[q] == b[q + 1]);
        }
        lemma_sorted_same_set(ta, tb);
        assert(a =~= seq![a[0]] + ta);
        assert(b =~= seq![b[0]] + tb);
    }
}

/// A well-formed value lists each of its scopes exactly once.
pub proof fn lemma_scopes_no_repeats(s: &Scopes)
    requires
        s.wf(),
    ensures
        s@.no_duplicates(),
{
    assert forall|i: int, j: int| 0 <= i < s@.len() && 0 <= j < s@.len() && i != j implies s@[i] != s@[j] by {
        if i < j {
            assert(lex_less(s@[i], s@[j]));
        } else {
            assert(lex_less(s@[j], s@[i]));
        }
        if s@[i] == s@[j] {
            lemma_lex_irreflexive(s@[i]);
        }
    }
}

impl Default for Scopes {
    fn default() -> (r: Scopes)
        ensures
            r.wf(),
            r.scope_set() == default_scope_set(),
    {
        let mut r = Scopes::empty();
        r.insert(String::from_str("openid"));
        r.insert(String::from_str("https://www.googleapis.com/auth/cloud-platform"));
        r.insert(String::from_str("profile"));
        r.insert(String::from_str("email"));
        r.insert(String::from_str("https://www.googleapis.com/auth/userinfo.email"));
        r.insert(String::from_str("https://www.googleapis.com/auth/userinfo.profile"));
        assert(r.scope_set() =~= default_scope_set());
        r
    }
}

impl PartialEq for Scopes {
    /// Set equality (for well-formed values, see `lemma_scopes_equal_iff_same_set`).
    fn eq(&self, other: &Scopes) -> (r: bool) {
        let n = self.0.len();
        if n != other.0.len() {
            assert(self@.len() != other@.len());
            return false;
        }
        let mut i: usize = 0;
        while i < n
            invariant
                i <= n,
                n == self@.len(),
                n == other@.len(),
                self@ == self.0@.map_values(|x: String| x@),
                other@ == other.0@.map_values(|x: String| x@),
                forall|k: int| 0 <= k < i ==> self@[k] == other@[k],
            decreases n - i,
        {
            if self.0[i] != other.0[i] {
                assert(self@[i as int] != other@[i as int]);
                return false;
            }
            i = i + 1;
        }
        assert(self@ =~= other@);
        true
    }
}

impl vstd::std_specs::cmp::PartialEqSpecImpl for Scopes {
    open spec fn obeys_eq_spec() -> bool {
        true
    }

    open spec fn eq_spec(&self, other: &Scopes) -> bool {
        self@ == other@
    }
}

/// The seconds a requested token should stay valid.
#[derive(Debug, Clone, Copy)]
pub struct Lifetime(u64);

pub const DEFAULT_LIFETIME_SECONDS: u64 = 3600;

impl View for Lifetime {
    type V = u64;

    closed spec fn view(&self) -> u64 {
        self.0
    }
}

/// The digits of a lifetime's text: one trailing `s` is dropped.
pub open spec fn lifetime_digits(s: Seq<char>) -> Seq<char> {
    if s.len() > 0 && s.last() == 's' {
        s.drop_last()
    } else {
        s
    }
}

/// Whether a lifetime's text is accepted: decimal digits, then at most one `s`,
/// of a value that fits in 64 bits.
pub open spec fn lifetime_text_valid(s: Seq<char>) -> bool {
    let d = lifetime_digits(s);
    d.len() > 0 && all_digits(d) && digits_value(d) <= u64::MAX
}

impl Lifetime {
    pub fn from_seconds(seconds: u64) -> (r: Lifetime)
        ensures
            r@ == seconds,
    {
        Lifetime(seconds)
    }

    pub fn seconds(&self) -> (r: u64)
        ensures
            r == self@,
    {
        self.0
    }

    /// Parses `"<seconds>"` or `"<seconds>s"`.
    pub fn from_str(s: &str) -> (r: Result<Lifetime, String>)
        ensures
            r is Ok <==> lifetime_text_valid(s@),
            r is Ok ==> r->Ok_0@ as nat == digits_value(lifetime_digits(s@)),
    {
        let n = s.unicode_len();
        let end: usize = if n > 0 && s.get_char(n - 1) == 's' {
            n - 1
        } else {
            n
        };
        let ghost d = lifetime_digits(s@);
        assert(d =~= s@.subrange(0, end as int));
        if end == 0 {
            return Err(String::from_str("lifetime: no digits"));
        }
        let mut acc: u64 = 0;
        let mut i: usize = 0;
        assert(d.subrange(0, 0) =~= Seq::<char>::empty());
        while i < end
            invariant
                i <= end,
                end <= n,
                n == s@.len(),
                d == s@.subrange(0, end as int),
                d == lifetime_digits(s@),
                all_digits(d.subrange(0, i as int)),
                acc as nat == digits_value(d.subrange(0, i as int)),
            decreases end - i,
        {
            let c = s.get_char(i);
            let ghost t = d.subrange(0, i + 1);
            proof {
                assert(t.drop_last() =~= d.subrange(0, i as int));
                assert(t.last() == c);
            }
            if !((c as u32) >= 48 && (c as u32) <= 57) {
                assert(d[i as int] == c);
                assert(!all_digits(d));
                return Err(String::from_str("lifetime: not a number"));
            }
            let v = (c as u32 - 48) as u64;
            let next = match acc.checked_mul(10) {
                Some(m) => m.checked_add(v),
                None => None,
            };
            match next {
                Some(x) => {
                    acc = x;
                },
                None => {
                    proof {
                        assert(digits_value(t) == acc * 10 + v);
                        if all_digits(d) {
                            lemma_digits_value_grows(d, i + 1);
                        }
                    }
                    return Err(String::from_str("lifetime: too large"));
                },
            }
            assert(all_digits(t));
            i = i + 1;
        }
        assert(d.subrange(0, end as int) =~= d);
        Ok(Lifetime(acc))
    }

    /// The canonical text `"<seconds>s"`.
    pub fn to_text(&self) -> (r: String)
        ensures
            r@ == decimal(self@ as nat).push('s'),
    {
        let mut out = String::new();
        push_decimal(&mut out, self.0);
        push_char(&mut out, 's');
        assert(out@ =~= decimal(self@ as nat).push('s'));
        out
    }
}

/// Reading a lifetime's canonical text gives back the same number of seconds.
pub proof fn lemma_lifetime_text_reads_back(l: Lifetime)
    ensures
        lifetime_text_valid(decimal(l@ as nat).push('s')),
        digits_value(lifetime_digits(decimal(l@ as nat).push('s'))) == l@,
{
    let t = decimal(l@ as nat).push('s');
    assert(t.drop_last() =~= decimal(l@ as nat));
    lemma_decimal_reads_back(l@ as nat);
}

impl Default for Lifetime {
    fn default() -> (r: Lifetime)
        ensures
            r@ == DEFAULT_LIFETIME_SECONDS,
    {
        Lifetime(DEFAULT_LIFETIME_SECONDS)
    }
}

/// `lo` is the number of white-space characters that open `s`.
pub open spec fn leading_space(s: Seq<char>, lo: int) -> bool {
    &&& 0 <= lo <= s.len()
    &&& forall|k: int| 0 <= k < lo ==> white_space(#[trigger] s[k])
    &&& lo == s.len() || !white_space(s[lo])
}

/// `s` ends in white space from `hi` on.
pub open spec fn trailing_space(s: Seq<char>, hi: int) -> bool {
    &&& 0 <= hi <= s.len()
    &&& forall|k: int| hi <= k < s.len() ==> white_space(#[trigger] s[k])
    &&& hi == 0 || !white_space(s[hi - 1])
}

/// `c` is the position of the first comma in `s`.
pub open spec fn first_comma(s: Seq<char>, c: int) -> bool {
    &&& 0 <= c < s.len()
    &&& s[c] == ','
    &&& forall|k: int| 0 <= k < c ==> #[trigger] s[k] != ','
}

/// The local session's account and bearer credential.
#[derive(Debug)]
pub struct GcloudConfig {
    account: String,
    access_token: AccessToken,
}

impl GcloudConfig {
    pub closed spec fn account_view(&self) -> Seq<char> {
        self.account@
    }

    pub closed spec fn token_view(&self) -> Seq<char> {
        self.access_token@
    }

    /// Parses the two-field line `account,token`, white space around it
    /// dropped. Text without a comma is refused.
    pub fn from_str(s: &str) -> (r: Result<GcloudConfig, String>)
        ensures
            r is Ok <==> s@.contains(','),
            r is Ok ==> exists|lo: int, hi: int, c: int|
                leading_space(s@, lo) && trailing_space(s@, hi) && first_comma(s@, c)
                && r->Ok_0.account_view() == s@.subrange(lo, c)
                && r->Ok_0.token_view() == s@.subrange(c + 1, hi),
    {
        let n = s.unicode_len();
        let mut c: usize = 0;
        while c < n && s.get_char(c) != ','
            invariant
                c <= n,
                n == s@.len(),
                forall|k: int| 0 <= k < c ==> #[trigger] s@[k] != ',',
            decreases n - c,
        {
            c = c + 1;
        }
        if c == n {
            assert(!s@.contains(','));
            return Err(String::from_str("credential: expected `account,token`"));
        }
        let mut lo: usize = 0;
        while lo < n && is_white_space(s.get_char(lo))
            invariant
                lo <= c,
                c < n,
                n == s@.len(),
                s@[c as int] == ',',
                forall|k: int| 0 <= k < lo ==> white_space(#[trigger] s@[k]),
            decreases c - lo,
        {
            lo = lo + 1;
        }
        let mut hi: usize = n;
        while hi > 0 && is_white_space(s.get_char(hi - 1))
            invariant
                c + 1 <= hi <= n,
                n == s@.len(),
                s@[c as int] == ',',
                forall|k: int| hi <= k < n ==> white_space(#[trigger] s@[k]),
            decreases hi,
        {
            hi = hi - 1;
        }
        let account = s.substring_char(lo, c).to_owned();
        let token = s.substring_char(c + 1, hi).to_owned();
        let r = GcloudConfig { account, access_token: AccessToken(token) };
        assert(leading_space(s@, lo as int));
        assert(trailing_space(s@, hi as int));
        assert(first_comma(s@, c as int));
        assert(r.account_view() == s@.subrange(lo as int, c as int));
        assert(r.token_view() == s@.subrange(c + 1, hi as int));
        Ok(r)
    }

    pub fn account(&self) -> (r: &str)
        ensures
            r@ == self.account_view(),
    {
        self.account.as_str()
    }

    pub fn access_token(&self) -> (r: &AccessToken)
        ensures
            r@ == self.token_view(),
    {
        &self.access_token
    }
}

} // verus!
