//! Canonical display strings.
//!
//! A value prints as its reduced fraction: the numerator alone when the
//! denominator is one (`"5"`), otherwise `"num/den"` (`"3/10"`). Every
//! error prints with the recognizable prefix `"Error: "`, so success and
//! failure can be told apart without re-parsing the string.

use vstd::prelude::*;
use crate::error::{EvalError, ParseError};
use crate::eval::{EvalOut, out_of};
use crate::ratio::{Ratio, ratio_wf};

verus! {

/// The decimal digits of `n`, most significant first.
pub open spec fn spec_dec(n: int) -> Seq<u8>
    recommends
        n >= 0,
    decreases n,
{
    if n < 10 {
        seq![(48 + if n >= 0 { n } else { 0 }) as u8]
    } else {
        spec_dec(n / 10).push((48 + n % 10) as u8)
    }
}

/// The canonical rendering of a value: an optional minus sign, the
/// magnitude's digits, and `/` with the denominator's digits unless the
/// denominator is one.
pub open spec fn spec_render_ratio(r: Ratio) -> Seq<u8> {
    let sign: Seq<u8> = if r.num < 0 {
        seq![45u8]
    } else {
        Seq::empty()
    };
    let mag: int = if r.num < 0 {
        -(r.num as int)
    } else {
        r.num as int
    };
    let base = sign + spec_dec(mag);
    if r.den == 1 {
        base
    } else {
        base + seq![47u8] + spec_dec(r.den as int)
    }
}

/// A name's bytes as they appear in a message; a byte that is not ASCII
/// prints as `?` (the lexer never accepts one into an identifier).
pub open spec fn ascii_clamp(s: Seq<u8>) -> Seq<u8> {
    s.map(|k: int, b: u8| if b < 128 { b } else { 63u8 })
}

/// `"Error: unbound variable '"`.
pub open spec fn msg_unbound_prefix() -> Seq<u8> {
    seq![
        69u8, 114u8, 114u8, 111u8, 114u8, 58u8, 32u8, 117u8, 110u8, 98u8, 111u8, 117u8, 110u8, 100u8, 32u8,
        118u8, 97u8, 114u8, 105u8, 97u8, 98u8, 108u8, 101u8, 32u8, 39u8,
    ]
}

/// `"Error: division by zero"`.
pub open spec fn msg_div_zero() -> Seq<u8> {
    seq![
        69u8, 114u8, 114u8, 111u8, 114u8, 58u8, 32u8, 100u8, 105u8, 118u8, 105u8, 115u8, 105u8, 111u8, 110u8,
        32u8, 98u8, 121u8, 32u8, 122u8, 101u8, 114u8, 111u8,
    ]
}

/// `"Error: numeric overflow"`.
pub open spec fn msg_overflow() -> Seq<u8> {
    seq![
        69u8, 114u8, 114u8, 111u8, 114u8, 58u8, 32u8, 110u8, 117u8, 109u8, 101u8, 114u8, 105u8, 99u8, 32u8,
        111u8, 118u8, 101u8, 114u8, 102u8, 108u8, 111u8, 119u8,
    ]
}

/// `"Error: parse error"`.
pub open spec fn msg_parse_error() -> Seq<u8> {
    seq![
        69u8, 114u8, 114u8, 111u8, 114u8, 58u8, 32u8, 112u8, 97u8, 114u8, 115u8, 101u8, 32u8, 101u8, 114u8,
        114u8, 111u8, 114u8,
    ]
}

/// The rendering of a statement's outcome.
pub open spec fn spec_render_out(o: EvalOut) -> Seq<u8> {
    match o {
        EvalOut::Val(r) => spec_render_ratio(r),
        EvalOut::Unbound(n) => msg_unbound_prefix() + ascii_clamp(n) + seq![39u8],
        EvalOut::DivZero => msg_div_zero(),
        EvalOut::Overflow => msg_overflow(),
    }
}

/// Whether a string has exactly the given ASCII bytes as its characters.
pub open spec fn str_is_bytes(cs: Seq<char>, bs: Seq<u8>) -> bool {
    &&& cs.len() == bs.len()
    &&& forall|k: int| 0 <= k < bs.len() ==> (#[trigger] cs[k]) as u32 == bs[k] as u32
}

/// Every byte of a rendered number is an ASCII digit.
pub proof fn lemma_dec_ascii(n: int)
    ensures
        forall|k: int| 0 <= k < spec_dec(n).len() ==> #[trigger] spec_dec(n)[k] < 128,
    decreases n,
{
    if n >= 10 {
        lemma_dec_ascii(n / 10);
        assert forall|k: int| 0 <= k < spec_dec(n).len() implies #[trigger] spec_dec(n)[k]
            < 128 by {
            if k < spec_dec(n / 10).len() {
                assert(spec_dec(n)[k] == spec_dec(n / 10)[k]);
            }
        }
    }
}

/// Every byte of a rendered outcome is ASCII.
pub proof fn lemma_render_ascii(o: EvalOut)
    ensures
        forall|k: int| 0 <= k < spec_render_out(o).len() ==> #[trigger] spec_render_out(o)[k]
            < 128,
{
    match o {
        EvalOut::Val(r) => {
            lemma_dec_ascii(if r.num < 0 { -(r.num as int) } else { r.num as int });
            lemma_dec_ascii(r.den as int);
        },
        EvalOut::Unbound(n) => {
            assert forall|k: int| 0 <= k < spec_render_out(o).len() implies #[trigger]
                spec_render_out(o)[k] < 128 by {
                let pre = msg_unbound_prefix();
                if pre.len() <= k < pre.len() + n.len() {
                    assert(spec_render_out(o)[k] == ascii_clamp(n)[k - pre.len()]);
                }
            }
        },
        EvalOut::DivZero => {},
        EvalOut::Overflow => {},
    }
}

/// Relies on `String::from_utf8`: a sequence of bytes that is valid UTF-8
/// (every ASCII sequence is) converts to the string made of exactly those
/// bytes; ASCII bytes are single-byte characters of the same value.
#[verifier::external_body]
pub fn bytes_to_string(v: Vec<u8>) -> (r: String)
    requires
        forall|k: int| 0 <= k < v@.len() ==> v@[k] < 128,
    ensures
        str_is_bytes(r@, v@),
{
    String::from_utf8(v).unwrap_or_default()
}

/// The decimal digits of a non-negative number, as bytes.
fn dec_bytes(n: i128) -> (r: Vec<u8>)
    requires
        n >= 0,
    ensures
        r@ == spec_dec(n as int),
    decreases n,
{
    if n < 10 {
        let mut v: Vec<u8> = Vec::new();
        v.push(48 + (n as u8));
        proof {
            assert(v@ =~= spec_dec(n as int));
        }
        v
    } else {
        let mut v = dec_bytes(n / 10);
        v.push(48 + ((n % 10) as u8));
        proof {
            assert(v@ =~= spec_dec(n as int));
        }
        v
    }
}

impl Ratio {
    /// The canonical rendering of this value, as bytes.
    pub fn render_bytes(&self) -> (r: Vec<u8>)
        requires
            ratio_wf(*self),
        ensures
            r@ == spec_render_ratio(*self),
    {
        let mut v: Vec<u8> = Vec::new();
        let mag: i128 = if self.num < 0 {
            v.push(45);
            -self.num
        } else {
            self.num
        };
        let mut digits = dec_bytes(mag);
        v.append(&mut digits);
        if self.den != 1 {
            v.push(47);
            let mut den_digits = dec_bytes(self.den);
            v.append(&mut den_digits);
        }
        proof {
            assert(v@ =~= spec_render_ratio(*self));
        }
        v
    }

    /// The canonical display string of this value.
    pub fn display(&self) -> (r: String)
        requires
            ratio_wf(*self),
        ensures
            str_is_bytes(r@, spec_render_ratio(*self)),
    {
        let bytes = self.render_bytes();
        proof {
            lemma_render_ascii(EvalOut::Val(*self));
            assert forall|k: int| 0 <= k < bytes@.len() implies bytes@[k] < 128 by {
                assert(bytes@[k] == spec_render_out(EvalOut::Val(*self))[k]);
            }
        }
        bytes_to_string(bytes)
    }
}

/// Append the ASCII-clamped name bytes to a message.
fn push_clamped(v: &mut Vec<u8>, name: &[u8])
    ensures
        final(v)@ == old(v)@ + ascii_clamp(name@),
{
    let n = name.len();
    let mut k: usize = 0;
    while k < n
        invariant
            0 <= k <= n,
            n == name@.len(),
            v@ == old(v)@ + ascii_clamp(name@).take(k as int),
        decreases n - k,
    {
        let b = name[k];
        if b < 128 {
            v.push(b);
        } else {
            v.push(63);
        }
        proof {
            assert(v@ =~= old(v)@ + ascii_clamp(name@).take(k + 1));
        }
        k = k + 1;
    }
    proof {
        assert(ascii_clamp(name@).take(n as int) =~= ascii_clamp(name@));
    }
}

/// The outcome an error stands for.
pub open spec fn err_out(e: EvalError) -> EvalOut {
    out_of(Err::<Ratio, EvalError>(e))
}

/// The rendering of one statement's outcome, as bytes.
pub fn render_result(r: &Result<Ratio, EvalError>) -> (v: Vec<u8>)
    requires
        r matches Ok(x) ==> ratio_wf(*x),
    ensures
        v@ == spec_render_out(out_of(*r)),
{
    match r {
        Ok(x) => x.render_bytes(),
        Err(e) => render_err(e),
    }
}

/// The rendering of an evaluation error, as bytes.
pub fn render_err(e: &EvalError) -> (v: Vec<u8>)
    ensures
        v@ == spec_render_out(err_out(*e)),
{
    match e {
        EvalError::UnboundVariable(n) => {
            let mut v: Vec<u8> = Vec::new();
            v.push(69u8);
            v.push(114u8);
            v.push(114u8);
            v.push(111u8);
            v.push(114u8);
            v.push(58u8);
            v.push(32u8);
            v.push(117u8);
            v.push(110u8);
            v.push(98u8);
            v.push(111u8);
            v.push(117u8);
            v.push(110u8);
            v.push(100u8);
            v.push(32u8);
            v.push(118u8);
            v.push(97u8);
            v.push(114u8);
            v.push(105u8);
            v.push(97u8);
            v.push(98u8);
            v.push(108u8);
            v.push(101u8);
            v.push(32u8);
            v.push(39u8);
            proof {
                assert(v@ =~= msg_unbound_prefix());
            }
            push_clamped(&mut v, n.as_slice());
            v.push(39u8);
            proof {
                assert(v@ =~= msg_unbound_prefix() + ascii_clamp(n@) + seq![39u8]);
            }
            v
        },
        EvalError::DivisionByZero => {
            let mut v: Vec<u8> = Vec::new();
            v.push(69u8);
            v.push(114u8);
            v.push(114u8);
            v.push(111u8);
            v.push(114u8);
            v.push(58u8);
            v.push(32u8);
            v.push(100u8);
            v.push(105u8);
            v.push(118u8);
            v.push(105u8);
            v.push(115u8);
            v.push(105u8);
            v.push(111u8);
            v.push(110u8);
            v.push(32u8);
            v.push(98u8);
            v.push(121u8);
            v.push(32u8);
            v.push(122u8);
            v.push(101u8);
            v.push(114u8);
            v.push(111u8);
            proof {
                assert(v@ =~= msg_div_zero());
            }
            v
        },
        EvalError::Overflow => {
            let mut v: Vec<u8> = Vec::new();
            v.push(69u8);
            v.push(114u8);
            v.push(114u8);
            v.push(111u8);
            v.push(114u8);
            v.push(58u8);
            v.push(32u8);
            v.push(110u8);
            v.push(117u8);
            v.push(109u8);
            v.push(101u8);
            v.push(114u8);
            v.push(105u8);
            v.push(99u8);
            v.push(32u8);
            v.push(111u8);
            v.push(118u8);
            v.push(101u8);
            v.push(114u8);
            v.push(102u8);
            v.push(108u8);
            v.push(111u8);
            v.push(119u8);
            proof {
                assert(v@ =~= msg_overflow());
            }
            v
        },
    }
}

impl EvalError {
    /// The canonical display string of this error.
    pub fn display(&self) -> (r: String)
        ensures
            str_is_bytes(r@, spec_render_out(err_out(*self))),
    {
        let v = render_err(self);
        proof {
            lemma_render_ascii(err_out(*self));
        }
        bytes_to_string(v)
    }
}

impl ParseError {
    /// The canonical display string of a batch parse failure.
    pub fn display(&self) -> (r: String)
        ensures
            str_is_bytes(r@, msg_parse_error()),
    {
        let mut v: Vec<u8> = Vec::new();
        v.push(69u8);
        v.push(114u8);
        v.push(114u8);
        v.push(111u8);
        v.push(114u8);
        v.push(58u8);
        v.push(32u8);
        v.push(112u8);
        v.push(97u8);
        v.push(114u8);
        v.push(115u8);
        v.push(101u8);
        v.push(32u8);
        v.push(101u8);
        v.push(114u8);
        v.push(114u8);
        v.push(111u8);
        v.push(114u8);
        proof {
            assert(v@ =~= msg_parse_error());
            assert forall|k: int| 0 <= k < v@.len() implies v@[k] < 128 by {}
        }
        bytes_to_string(v)
    }
}

} // verus!
