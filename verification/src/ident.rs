//! Lookup identifiers and token handling.
//!
//! An identifier given to kill or reload is either all decimal digits — then
//! it names a PID — or anything else — then it names a record by `name`,
//! with several tokens joined by single spaces.  A name that matches several
//! records operates on all of them; ambiguity is never an error.

use vstd::prelude::*;
use vstd::string::StrSliceExecFns;
use vstd::string::StringExecFns;
use crate::digits::all_digits;
use crate::digits::is_digit;
use crate::digits::parse_u64;
use crate::digits::parse_u64_spec;
use crate::record::RecordModel;

verus! {

/// Character-for-character string equality.
pub fn str_eq(a: &str, b: &str) -> (r: bool)
    ensures
        r == (a@ == b@),
{
    let na = a.unicode_len();
    let nb = b.unicode_len();
    if na != nb {
        return false;
    }
    let mut i: usize = 0;
    while i < na
        invariant
            0 <= i <= na,
            na == a@.len(),
            na == b@.len(),
            forall|k: int| 0 <= k < i ==> a@[k] == b@[k],
        decreases na - i,
    {
        if a.get_char(i) != b.get_char(i) {
            return false;
        }
        i = i + 1;
    }
    proof {
        assert(a@ =~= b@);
    }
    true
}

/// Tokens joined by `sep`, with nothing added before the first or after the
/// last.
pub open spec fn join_spec(parts: Seq<Seq<char>>, sep: Seq<char>) -> Seq<char>
    decreases parts.len(),
{
    if parts.len() == 0 {
        Seq::empty()
    } else if parts.len() == 1 {
        parts[0]
    } else {
        join_spec(parts.drop_last(), sep) + sep + parts.last()
    }
}

/// Join tokens with single spaces.
pub fn join_spaces(tokens: &Vec<String>) -> (r: String)
    ensures
        r@ == join_spec(tokens.deep_view(), " "@),
{
    let mut r = String::new();
    let mut i: usize = 0;
    while i < tokens.len()
        invariant
            0 <= i <= tokens.len(),
            r@ == join_spec(tokens.deep_view().take(i as int), " "@),
        decreases tokens.len() - i,
    {
        if i > 0 {
            r.append(" ");
        }
        r.append(tokens[i].as_str());
        proof {
            let parts = tokens.deep_view();
            assert(parts.take(i + 1).drop_last() =~= parts.take(i as int));
            assert(parts.take(i + 1).last() == tokens@[i as int]@);
            if i == 0 {
                assert(parts.take(1) =~= seq![parts[0]]);
            }
        }
        i = i + 1;
    }
    proof {
        assert(tokens.deep_view().take(tokens@.len() as int) =~= tokens.deep_view());
    }
    r
}

/// A whitespace character, for the purpose of re-splitting a stored command
/// line into program and arguments.
pub open spec fn is_space(c: char) -> bool {
    c == ' ' || c == '\t' || c == '\r' || c == '\n'
}

/// The tokens of `s` once split on whitespace, processed left to right with
/// `cur` the partial token read so far; empty tokens never appear.
pub open spec fn split_acc(s: Seq<char>, cur: Seq<char>) -> Seq<Seq<char>>
    decreases s.len(),
{
    if s.len() == 0 {
        if cur.len() == 0 {
            Seq::empty()
        } else {
            seq![cur]
        }
    } else if is_space(s[0]) {
        if cur.len() == 0 {
            split_acc(s.drop_first(), Seq::empty())
        } else {
            seq![cur] + split_acc(s.drop_first(), Seq::empty())
        }
    } else {
        split_acc(s.drop_first(), cur.push(s[0]))
    }
}

/// The whitespace-separated tokens of `s`.
pub open spec fn split_tokens_spec(s: Seq<char>) -> Seq<Seq<char>> {
    split_acc(s, Seq::empty())
}

/// Split a stored command line on whitespace into its tokens.  This is what
/// reload uses to recover program and arguments from the stored command; a
/// command whose only content is whitespace yields no tokens.
pub fn split_tokens(s: &str) -> (r: Vec<String>)
    ensures
        r.deep_view() == split_tokens_spec(s@),
{
    let n = s.unicode_len();
    let mut r: Vec<String> = Vec::new();
    let mut in_token = false;
    let mut start: usize = 0;
    let mut i: usize = 0;
    proof {
        assert(s@.skip(0) =~= s@);
        assert(r.deep_view() =~= Seq::<Seq<char>>::empty());
        assert(Seq::<Seq<char>>::empty() + split_acc(s@, Seq::empty()) =~= split_acc(
            s@,
            Seq::empty(),
        ));
    }
    while i < n
        invariant
            0 <= i <= n,
            n == s@.len(),
            in_token ==> start < i,
            !in_token ==> split_tokens_spec(s@) == r.deep_view() + split_acc(
                s@.skip(i as int),
                Seq::empty(),
            ),
            in_token ==> split_tokens_spec(s@) == r.deep_view() + split_acc(
                s@.skip(i as int),
                s@.subrange(start as int, i as int),
            ),
            in_token ==> s@.subrange(start as int, i as int).len() > 0,
        decreases n - i,
    {
        let c = s.get_char(i);
        proof {
            assert(s@.skip(i as int).drop_first() =~= s@.skip(i as int + 1));
            assert(s@.skip(i as int)[0] == s@[i as int]);
        }
        if c == ' ' || c == '\t' || c == '\r' || c == '\n' {
            if in_token {
                let tok = s.substring_char(start, i).to_owned();
                let ghost old_r = r.deep_view();
                let ghost cur = s@.subrange(start as int, i as int);
                r.push(tok);
                in_token = false;
                proof {
                    assert(r.deep_view() =~= old_r + seq![cur]);
                    assert(old_r + seq![cur] + split_acc(s@.skip(i as int + 1), Seq::empty())
                        =~= old_r + (seq![cur] + split_acc(s@.skip(i as int + 1), Seq::empty())));
                }
            }
        } else {
            if !in_token {
                start = i;
                in_token = true;
                proof {
                    assert(s@.subrange(i as int, i as int + 1) =~= Seq::<char>::empty().push(
                        s@[i as int],
                    ));
                }
            } else {
                proof {
                    assert(s@.subrange(start as int, i as int + 1) =~= s@.subrange(
                        start as int,
                        i as int,
                    ).push(s@[i as int]));
                }
            }
        }
        i = i + 1;
    }
    if in_token {
        let tok = s.substring_char(start, n).to_owned();
        let ghost old_r = r.deep_view();
        let ghost cur = s@.subrange(start as int, n as int);
        r.push(tok);
        proof {
            assert(s@.skip(n as int) =~= Seq::<char>::empty());
            assert(r.deep_view() =~= old_r + seq![cur]);
        }
    } else {
        proof {
            assert(s@.skip(n as int) =~= Seq::<char>::empty());
            assert(r.deep_view() + Seq::<Seq<char>>::empty() =~= r.deep_view());
        }
    }
    r
}

/// Does `pat` occur contiguously inside `s`?
pub open spec fn contains_seq(s: Seq<char>, pat: Seq<char>) -> bool {
    exists|k: int|
        0 <= k && k + pat.len() <= s.len() && #[trigger] s.subrange(k, k + pat.len()) == pat
}

/// Substring search: does `pat` occur inside `s`?
pub fn contains_sub(s: &str, pat: &str) -> (r: bool)
    ensures
        r == contains_seq(s@, pat@),
{
    let n = s.unicode_len();
    let m = pat.unicode_len();
    if m > n {
        proof {
            if contains_seq(s@, pat@) {
                let k = choose|k: int|
                    0 <= k && k + pat@.len() <= s@.len() && #[trigger] s@.subrange(
                        k,
                        k + pat@.len(),
                    ) == pat@;
            }
        }
        return false;
    }
    let mut k: usize = 0;
    while k <= n - m
        invariant
            0 <= k <= n - m + 1,
            m <= n,
            n == s@.len(),
            m == pat@.len(),
            forall|k2: int| 0 <= k2 < k ==> #[trigger] s@.subrange(k2, k2 + pat@.len()) != pat@,
        decreases n - m - k + 1,
    {
        let mut j: usize = 0;
        let mut hit = true;
        while j < m
            invariant
                0 <= j <= m,
                0 <= k <= n - m,
                n == s@.len(),
                m == pat@.len(),
                hit == (forall|j2: int| 0 <= j2 < j ==> s@[k + j2] == pat@[j2]),
            decreases m - j,
        {
            proof {
                let pre = forall|j2: int| 0 <= j2 < j ==> s@[k + j2] == pat@[j2];
                if pre && s@[k + j] == pat@[j as int] {
                    assert forall|j2: int| 0 <= j2 < j + 1 implies s@[k + j2] == pat@[j2] by {
                        if j2 < j as int {
                            assert(s@[k + j2] == pat@[j2]);
                        }
                    }
                }
            }
            if s.get_char(k + j) != pat.get_char(j) {
                hit = false;
                proof {
                    assert(s@[k + j] != pat@[j as int]);
                }
                j = m;
            } else {
                j = j + 1;
            }
        }
        if hit {
            proof {
                assert(s@.subrange(k as int, k + pat@.len()) =~= pat@);
            }
            return true;
        }
        proof {
            if s@.subrange(k as int, k + pat@.len()) == pat@ {
                let bad = choose|j2: int| 0 <= j2 < m && s@[k + j2] != pat@[j2];
                assert(s@.subrange(k as int, k + pat@.len())[bad] == pat@[bad]);
            }
            assert forall|k2: int| 0 <= k2 < k + 1 implies #[trigger] s@.subrange(
                k2,
                k2 + pat@.len(),
            ) != pat@ by {}
        }
        k = k + 1;
    }
    proof {
        if contains_seq(s@, pat@) {
            let w = choose|w: int|
                0 <= w && w + pat@.len() <= s@.len() && #[trigger] s@.subrange(w, w + pat@.len())
                    == pat@;
            assert(s@.subrange(w, w + pat@.len()) != pat@);
        }
    }
    false
}

/// A lookup identifier, as given to kill or reload: the raw text, whether it
/// is all digits (then it names a PID), and the numeric value when the
/// digits fit a `u64`.
#[derive(Debug)]
pub struct Ident {
    pub text: String,
    pub is_pid: bool,
    pub numeric: Option<u64>,
}

impl Clone for Ident {
    /// An equal identifier, field for field.
    fn clone(&self) -> (r: Self)
        ensures
            r == *self,
    {
        Ident { text: self.text.clone(), is_pid: self.is_pid, numeric: self.numeric }
    }
}

/// The mathematical value of an `Ident`.
#[verifier::ext_equal]
pub ghost struct IdentModel {
    pub text: Seq<char>,
    pub is_pid: bool,
    pub numeric: Option<u64>,
}

impl View for Ident {
    type V = IdentModel;

    open spec fn view(&self) -> IdentModel {
        IdentModel { text: self.text@, is_pid: self.is_pid, numeric: self.numeric }
    }
}

impl DeepView for Ident {
    type V = IdentModel;

    open spec fn deep_view(&self) -> IdentModel {
        self@
    }
}

/// The two derived fields agree with the text: `is_pid` says the text is a
/// non-empty digit string, and `numeric` holds its value exactly when that
/// value fits a `u64`.
pub open spec fn ident_wf(id: IdentModel) -> bool {
    &&& id.is_pid == (id.text.len() > 0 && all_digits(id.text))
    &&& id.numeric == (if id.is_pid {
        parse_u64_spec(id.text)
    } else {
        None::<u64>
    })
}

/// Does the identifier pick out this record?  A PID identifier matches on
/// the `pid` field (digits too large for any PID match nothing); any other
/// identifier matches on the `name` field.
pub open spec fn ident_matches(id: IdentModel, r: RecordModel) -> bool {
    if id.is_pid {
        id.numeric == Some(r.pid)
    } else {
        r.name == id.text
    }
}

/// Build the identifier from the tokens the user supplied: join them with
/// single spaces, and classify the result as PID or name.
pub fn parse_identifier(tokens: &Vec<String>) -> (id: Ident)
    requires
        tokens@.len() > 0,
    ensures
        id@.text == join_spec(tokens.deep_view(), " "@),
        ident_wf(id@),
{
    let text = join_spaces(tokens);
    let n = text.as_str().unicode_len();
    let mut digits = n > 0;
    let mut i: usize = 0;
    while i < n
        invariant
            0 <= i <= n,
            n == text@.len(),
            digits == (n > 0 && all_digits(text@.take(i as int))),
        decreases n - i,
    {
        let c = text.as_str().get_char(i);
        let u = c as u32;
        proof {
            let t0 = text@.take(i as int);
            let t1 = text@.take(i as int + 1);
            assert(t1 =~= t0.push(text@[i as int]));
            if all_digits(t0) && is_digit(text@[i as int]) {
                assert forall|k: int| 0 <= k < t1.len() implies is_digit(t1[k]) by {
                    if k < i as int {
                        assert(t1[k] == t0[k]);
                    }
                }
            }
            if all_digits(t1) {
                assert forall|k: int| 0 <= k < t0.len() implies is_digit(t0[k]) by {
                    assert(t0[k] == t1[k]);
                }
                assert(t1[i as int] == text@[i as int]);
            }
        }
        if u < 48 || u > 57 {
            assert(!is_digit(text@[i as int]));
            digits = false;
        }
        i = i + 1;
    }
    proof {
        assert(text@.take(n as int) =~= text@);
    }
    let numeric = if digits {
        parse_u64(text.as_str())
    } else {
        None
    };
    Ident { text, is_pid: digits, numeric }
}

} // verus!
