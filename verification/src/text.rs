//! Text utilities: question-text normalization and comma splitting.
use vstd::prelude::*;
use vstd::string::*;

verus! {

/// The Unicode White_Space characters, the set that trimming removes.
pub open spec fn is_space_char(c: char) -> bool {
    ||| c == ' '
    ||| c == '\t'
    ||| c == '\n'
    ||| c == '\r'
    ||| c as u32 == 0xb
    ||| c as u32 == 0xc
    ||| c as u32 == 0x85
    ||| c as u32 == 0xa0
    ||| c as u32 == 0x1680
    ||| (0x2000 <= c as u32 && c as u32 <= 0x200a)
    ||| c as u32 == 0x2028
    ||| c as u32 == 0x2029
    ||| c as u32 == 0x202f
    ||| c as u32 == 0x205f
    ||| c as u32 == 0x3000
}

pub open spec fn trim_start_spec(s: Seq<char>) -> Seq<char>
    decreases s.len(),
{
    if s.len() > 0 && is_space_char(s[0]) {
        trim_start_spec(s.drop_first())
    } else {
        s
    }
}

pub open spec fn trim_end_spec(s: Seq<char>) -> Seq<char>
    decreases s.len(),
{
    if s.len() > 0 && is_space_char(s.last()) {
        trim_end_spec(s.drop_last())
    } else {
        s
    }
}

/// Leading and trailing whitespace removed.
pub open spec fn trim_spec(s: Seq<char>) -> Seq<char> {
    trim_end_spec(trim_start_spec(s))
}

/// Every run of newline characters shortened to a single newline.
pub open spec fn collapse_newlines_spec(s: Seq<char>) -> Seq<char>
    decreases s.len(),
{
    if s.len() == 0 {
        Seq::<char>::empty()
    } else if s.len() >= 2 && s[0] == '\n' && s[1] == '\n' {
        collapse_newlines_spec(s.drop_first())
    } else {
        seq![s[0]] + collapse_newlines_spec(s.drop_first())
    }
}

/// What question text normalizes to: trimmed, then newline runs collapsed.
pub open spec fn normalize_text(s: Seq<char>) -> Seq<char> {
    collapse_newlines_spec(trim_spec(s))
}

pub fn is_space(c: char) -> (r: bool)
    ensures
        r == is_space_char(c),
{
    let code = c as u32;
    code == 0x20 || code == 0x9 || code == 0xa || code == 0xd || code == 0xb || code == 0xc
        || code == 0x85 || code == 0xa0 || code == 0x1680 || (0x2000 <= code && code <= 0x200a)
        || code == 0x2028 || code == 0x2029 || code == 0x202f || code == 0x205f || code == 0x3000
}

/// The characters of a string, in order.
pub fn chars_vec(s: &str) -> (r: Vec<char>)
    ensures
        r@ == s@,
{
    let n = s.unicode_len();
    let mut r: Vec<char> = Vec::new();
    let mut i: usize = 0;
    while i < n
        invariant
            n == s@.len(),
            i <= n,
            r@ == s@.take(i as int),
        decreases n - i,
    {
        let c = s.get_char(i);
        r.push(c);
        i = i + 1;
        assert(r@ =~= s@.take(i as int));
    }
    assert(s@.take(n as int) =~= s@);
    r
}

/// Relies on String's FromIterator: collecting characters yields the string
/// of exactly those characters, in order.
#[verifier::external_body]
pub fn string_from_chars(v: &Vec<char>) -> (r: String)
    ensures
        r@ == v@,
{
    v.iter().collect()
}

/// Trims the text and collapses every run of newlines to a single newline.
pub fn remove_extra_newlines(text: &str) -> (r: String)
    ensures
        r@ == normalize_text(text@),
{
    let v = chars_vec(text);
    let n = v.len();
    let mut a: usize = 0;
    assert(v@.skip(0) =~= v@);
    while a < n && is_space(v[a])
        invariant
            n == v@.len(),
            a <= n,
            trim_start_spec(v@) == trim_start_spec(v@.skip(a as int)),
        decreases n - a,
    {
        assert(v@.skip(a as int).drop_first() =~= v@.skip(a as int + 1));
        a = a + 1;
    }
    assert(trim_start_spec(v@) =~= v@.skip(a as int)) by {
        if a < n {
            assert(!is_space_char(v@.skip(a as int)[0]));
        } else {
            assert(v@.skip(a as int).len() == 0);
        }
    }
    let ghost t = v@.skip(a as int);
    let mut b: usize = n;
    assert(t.take(n - a) =~= t);
    while b > a && is_space(v[b - 1])
        invariant
            n == v@.len(),
            a <= b <= n,
            t == v@.skip(a as int),
            trim_end_spec(t) == trim_end_spec(t.take(b - a)),
        decreases b,
    {
        assert(t.take(b - a).drop_last() =~= t.take(b - a - 1));
        assert(t.take(b - a).last() == v@[b - 1]);
        b = b - 1;
    }
    assert(trim_spec(v@) =~= t.take(b - a)) by {
        if b > a {
            assert(t.take(b - a).last() == v@[b - 1]);
            assert(!is_space_char(t.take(b - a).last()));
        }
    }
    let ghost w = t.take(b - a);
    let mut out: Vec<char> = Vec::new();
    let mut i: usize = a;
    assert(w.skip(0) =~= w);
    while i < b
        invariant
            n == v@.len(),
            a <= i <= b <= n,
            w == v@.skip(a as int).take(b - a),
            out@ + collapse_newlines_spec(w.skip(i - a)) == collapse_newlines_spec(w),
        decreases b - i,
    {
        let ghost su = w.skip(i - a);
        assert(su.len() > 0);
        assert(su[0] == v@[i as int]);
        assert(su.drop_first() =~= w.skip(i - a + 1));
        if v[i] == '\n' && i + 1 < b && v[i + 1] == '\n' {
            assert(su[1] == v@[i as int + 1]);
        } else {
            proof {
                if su.len() >= 2 {
                    assert(su[1] == v@[i as int + 1]);
                }
            }
            out.push(v[i]);
            assert(out@ + collapse_newlines_spec(w.skip(i - a + 1)) =~= collapse_newlines_spec(w));
        }
        i = i + 1;
    }
    assert(w.skip(b - a).len() == 0);
    assert(out@ =~= collapse_newlines_spec(w));
    assert(normalize_text(text@) == collapse_newlines_spec(w));
    string_from_chars(&out)
}

/// The pieces of `s` between commas, in order; always at least one piece,
/// and empty pieces are kept.
pub open spec fn split_commas_spec(s: Seq<char>) -> Seq<Seq<char>>
    decreases s.len(),
{
    if s.len() == 0 {
        seq![Seq::<char>::empty()]
    } else {
        let rest = split_commas_spec(s.drop_first());
        if s[0] == ',' {
            seq![Seq::<char>::empty()] + rest
        } else {
            seq![seq![s[0]] + rest[0]] + rest.drop_first()
        }
    }
}

pub proof fn lemma_split_commas_nonempty(s: Seq<char>)
    ensures
        split_commas_spec(s).len() >= 1,
    decreases s.len(),
{
    if s.len() > 0 {
        lemma_split_commas_nonempty(s.drop_first());
    }
}

/// The piece list with its first piece extended on the left by `c`.
pub open spec fn prepend_first(c: Seq<char>, pieces: Seq<Seq<char>>) -> Seq<Seq<char>> {
    seq![c + pieces[0]] + pieces.drop_first()
}

pub fn split_commas(s: &str) -> (r: Vec<String>)
    ensures
        r.deep_view() == split_commas_spec(s@),
{
    let v = chars_vec(s);
    let n = v.len();
    let mut out: Vec<String> = Vec::new();
    let mut cur: Vec<char> = Vec::new();
    let mut i: usize = 0;
    proof {
        lemma_split_commas_nonempty(s@);
        assert(v@.skip(0) =~= v@);
        assert(Seq::<char>::empty() + split_commas_spec(s@)[0] =~= split_commas_spec(s@)[0]);
        assert(prepend_first(Seq::<char>::empty(), split_commas_spec(s@)) =~~= split_commas_spec(
            s@,
        ));
    }
    while i < n
        invariant
            n == v@.len(),
            i <= n,
            v@ == s@,
            split_commas_spec(s@) =~~= out.deep_view() + prepend_first(
                cur@,
                split_commas_spec(v@.skip(i as int)),
            ),
        decreases n - i,
    {
        let ghost su = v@.skip(i as int);
        let ghost r = split_commas_spec(v@.skip(i as int + 1));
        proof {
            assert(su.len() > 0);
            assert(su[0] == v@[i as int]);
            assert(su.drop_first() =~= v@.skip(i as int + 1));
            lemma_split_commas_nonempty(v@.skip(i as int + 1));
        }
        if v[i] == ',' {
            let piece = string_from_chars(&cur);
            let ghost old_out = out.deep_view();
            let ghost old_cur = cur@;
            out.push(piece);
            cur = Vec::new();
            proof {
                assert(out.deep_view() =~~= old_out.push(old_cur));
                assert(old_cur + Seq::<char>::empty() =~= old_cur);
                assert(Seq::<char>::empty() + r[0] =~= r[0]);
                assert(seq![Seq::<char>::empty() + r[0]] + r.drop_first() =~~= r);
                assert(out.deep_view() + prepend_first(cur@, r) =~~= old_out + prepend_first(
                    old_cur,
                    split_commas_spec(su),
                ));
            }
        } else {
            let ghost old_cur = cur@;
            cur.push(v[i]);
            proof {
                assert(old_cur + (seq![su[0]] + r[0]) =~= cur@ + r[0]);
                assert(prepend_first(old_cur, split_commas_spec(su)) =~~= prepend_first(cur@, r));
            }
        }
        i = i + 1;
    }
    proof {
        assert(v@.skip(n as int).len() == 0);
        assert(cur@ + Seq::<char>::empty() =~= cur@);
        assert(prepend_first(cur@, split_commas_spec(v@.skip(n as int))) =~~= seq![cur@]);
    }
    let last = string_from_chars(&cur);
    out.push(last);
    proof {
        assert(out.deep_view() =~~= split_commas_spec(s@));
    }
    out
}

} // verus!
