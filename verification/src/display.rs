//! Rendering numbers to decimal text, and interleaving the fragments of a
//! string interpolation with the rendered values between them.

use vstd::prelude::*;
use vstd::string::StringExecFns;

verus! {

pub open spec fn digit_char(d: nat) -> char {
    if d == 0 { '0' }
    else if d == 1 { '1' }
    else if d == 2 { '2' }
    else if d == 3 { '3' }
    else if d == 4 { '4' }
    else if d == 5 { '5' }
    else if d == 6 { '6' }
    else if d == 7 { '7' }
    else if d == 8 { '8' }
    else { '9' }
}

/// The decimal digits of `n`, most significant first.
pub open spec fn spec_udigits(n: nat) -> Seq<char>
    decreases n,
{
    if n < 10 {
        seq![digit_char(n)]
    } else {
        spec_udigits(n / 10).push(digit_char(n % 10))
    }
}

/// The decimal rendering of an integer, with a leading minus sign when it is
/// negative.
pub open spec fn spec_num_str(x: int) -> Seq<char> {
    if x < 0 {
        seq!['-'] + spec_udigits((-x) as nat)
    } else {
        spec_udigits(x as nat)
    }
}

fn digit_str(d: u64) -> (r: &'static str)
    requires
        d < 10,
    ensures
        r@ == seq![digit_char(d as nat)],
{
    proof {
        reveal_strlit("0");
        reveal_strlit("1");
        reveal_strlit("2");
        reveal_strlit("3");
        reveal_strlit("4");
        reveal_strlit("5");
        reveal_strlit("6");
        reveal_strlit("7");
        reveal_strlit("8");
        reveal_strlit("9");
    }
    let r = match d {
        0 => "0",
        1 => "1",
        2 => "2",
        3 => "3",
        4 => "4",
        5 => "5",
        6 => "6",
        7 => "7",
        8 => "8",
        _ => "9",
    };
    proof {
        assert(r@ =~= seq![digit_char(d as nat)]);
    }
    r
}

fn push_udigits(n: u64, out: &mut String)
    ensures
        final(out)@ == old(out)@ + spec_udigits(n as nat),
    decreases n,
{
    if n < 10 {
        out.append(digit_str(n));
        proof {
            assert(final(out)@ =~= old(out)@ + spec_udigits(n as nat));
        }
    } else {
        push_udigits(n / 10, out);
        out.append(digit_str(n % 10));
        proof {
            assert(final(out)@ =~= old(out)@ + spec_udigits(n as nat));
        }
    }
}

/// Render an integer in decimal, exactly as `spec_num_str` describes.
pub fn num_to_string(n: i64) -> (r: String)
    ensures
        r@ == spec_num_str(n as int),
{
    let mut out = String::new();
    if n < 0 {
        proof {
            reveal_strlit("-");
        }
        out.append("-");
        let mag: u64 = (-(n as i128)) as u64;
        push_udigits(mag, &mut out);
        proof {
            assert(out@ =~= spec_num_str(n as int));
        }
    } else {
        push_udigits(n as u64, &mut out);
    }
    out
}

/// Fragments interleaved with rendered expression values, left to right:
/// `ss[0] + ps[0] + ss[1] + ... + ps[n-1] + ss[n]`. Fragments are kept
/// verbatim, empty ones included.
pub open spec fn spec_interleave(ss: Seq<Seq<char>>, ps: Seq<Seq<char>>) -> Seq<char>
    decreases ps.len(),
{
    if ss.len() == 0 {
        Seq::empty()
    } else if ps.len() == 0 {
        ss[0]
    } else {
        ss[0] + ps[0] + spec_interleave(ss.subrange(1, ss.len() as int), ps.subrange(1, ps.len() as int))
    }
}

proof fn lemma_interleave_push(ss: Seq<Seq<char>>, ps: Seq<Seq<char>>, s: Seq<char>, p: Seq<char>)
    requires
        ss.len() == ps.len() + 1,
    ensures
        spec_interleave(ss.push(s), ps.push(p)) == spec_interleave(ss, ps) + p + s,
    decreases ps.len(),
{
    let ss2 = ss.push(s);
    let ps2 = ps.push(p);
    if ps.len() == 0 {
        assert(ss2.subrange(1, ss2.len() as int) =~= seq![s]);
        assert(ps2.subrange(1, ps2.len() as int) =~= Seq::empty());
        assert(spec_interleave(seq![s], Seq::empty()) == s);
        assert(spec_interleave(ss2, ps2) =~= ss[0] + p + s);
        assert(spec_interleave(ss, ps) + p + s =~= ss[0] + p + s);
    } else {
        let sst = ss.subrange(1, ss.len() as int);
        let pst = ps.subrange(1, ps.len() as int);
        lemma_interleave_push(sst, pst, s, p);
        assert(ss2.subrange(1, ss2.len() as int) =~= sst.push(s));
        assert(ps2.subrange(1, ps2.len() as int) =~= pst.push(p));
        assert(spec_interleave(ss2, ps2) =~= spec_interleave(ss, ps) + p + s);
    }
}

/// Concatenate interpolation fragments and rendered parts left to right;
/// `strings` holds one more fragment than `parts`.
pub fn interp_concat(strings: &Vec<String>, parts: &Vec<String>) -> (r: String)
    requires
        strings@.len() == parts@.len() + 1,
    ensures
        r@ == spec_interleave(
            strings@.map_values(|s: String| s@),
            parts@.map_values(|s: String| s@),
        ),
{
    let ghost ss = strings@.map_values(|s: String| s@);
    let ghost ps = parts@.map_values(|s: String| s@);
    let mut out = String::new();
    out.append(strings[0].as_str());
    proof {
        assert(ss.take(1) =~= seq![ss[0]]);
        assert(ps.take(0) =~= Seq::<Seq<char>>::empty());
        assert(out@ =~= spec_interleave(ss.take(1), ps.take(0)));
    }
    let mut i: usize = 0;
    while i < parts.len()
        invariant
            i <= parts@.len(),
            strings@.len() == parts@.len() + 1,
            ss == strings@.map_values(|s: String| s@),
            ps == parts@.map_values(|s: String| s@),
            out@ == spec_interleave(ss.take(i + 1), ps.take(i as int)),
        decreases parts@.len() - i,
    {
        out.append(parts[i].as_str());
        out.append(strings[i + 1].as_str());
        proof {
            lemma_interleave_push(ss.take(i + 1), ps.take(i as int), ss[i + 1], ps[i as int]);
            assert(ss.take(i + 2) =~= ss.take(i + 1).push(ss[i + 1]));
            assert(ps.take(i + 1) =~= ps.take(i as int).push(ps[i as int]));
            assert(out@ =~= spec_interleave(ss.take(i + 2), ps.take(i + 1)));
        }
        i = i + 1;
    }
    proof {
        assert(ss.take(ss.len() as int) =~= ss);
        assert(ps.take(ps.len() as int) =~= ps);
    }
    out
}

} // verus!
