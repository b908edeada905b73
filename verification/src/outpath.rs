//! Output-path resolution. A caller-supplied path is honoured only when
//! nothing exists at it yet; a path that is already a file or a
//! directory, like an absent one, falls back silently to a generated
//! name `rabocard_<unix seconds>_ynab.csv` (the fallback policy of this
//! implementation; the caller logs a diagnostic and roots the generated
//! name in its working directory).

use vstd::prelude::*;
use vstd::arithmetic::div_mod::lemma_fundamental_div_mod;
use vstd::string::StringExecFns;
use crate::strutil::push_char;

verus! {

/// The decimal digit `d` (0 to 9) as a character.
pub open spec fn dec_digit(d: int) -> char {
    if d == 0 {
        '0'
    } else if d == 1 {
        '1'
    } else if d == 2 {
        '2'
    } else if d == 3 {
        '3'
    } else if d == 4 {
        '4'
    } else if d == 5 {
        '5'
    } else if d == 6 {
        '6'
    } else if d == 7 {
        '7'
    } else if d == 8 {
        '8'
    } else {
        '9'
    }
}

/// The usual decimal writing of `n`, most significant digit first, no
/// leading zeros (a single `'0'` for zero).
pub open spec fn dec_str(n: nat) -> Seq<char>
    decreases n,
{
    if n < 10 {
        seq![dec_digit(n as int)]
    } else {
        dec_str(n / 10) + seq![dec_digit((n % 10) as int)]
    }
}

/// The decimal writing of a signed number: a `'-'` before the magnitude
/// when negative.
pub open spec fn int_str(i: int) -> Seq<char> {
    if i >= 0 {
        dec_str(i as nat)
    } else {
        seq!['-'] + dec_str((-i) as nat)
    }
}

/// The generated output file name for a resolution at `ts` seconds since
/// the Unix epoch.
pub open spec fn default_name(ts: int) -> Seq<char> {
    "rabocard_"@ + int_str(ts) + "_ynab.csv"@
}

fn push_digit(out: &mut String, d: u64)
    requires
        d < 10,
    ensures
        final(out)@ == old(out)@.push(dec_digit(d as int)),
{
    if d == 0 {
        push_char(out, '0');
    } else if d == 1 {
        push_char(out, '1');
    } else if d == 2 {
        push_char(out, '2');
    } else if d == 3 {
        push_char(out, '3');
    } else if d == 4 {
        push_char(out, '4');
    } else if d == 5 {
        push_char(out, '5');
    } else if d == 6 {
        push_char(out, '6');
    } else if d == 7 {
        push_char(out, '7');
    } else if d == 8 {
        push_char(out, '8');
    } else {
        push_char(out, '9');
    }
}

fn push_dec(out: &mut String, n: u64)
    ensures
        final(out)@ == old(out)@ + dec_str(n as nat),
    decreases n,
{
    if n >= 10 {
        push_dec(out, n / 10);
        push_digit(out, n % 10);
        proof {
            assert(out@ =~= old(out)@ + dec_str(n as nat));
        }
    } else {
        push_digit(out, n);
        proof {
            assert(out@ =~= old(out)@ + dec_str(n as nat));
        }
    }
}

/// The generated timestamped file name, exactly `default_name(ts)`.
pub fn default_output_name(ts: i64) -> (r: String)
    ensures
        r@ == default_name(ts as int),
{
    let mut out = String::from_str("rabocard_");
    if ts < 0 {
        push_char(&mut out, '-');
        let mag: u64 = if ts == i64::MIN {
            9223372036854775808u64
        } else {
            (-ts) as u64
        };
        proof {
            assert(mag as nat == (-(ts as int)) as nat);
        }
        push_dec(&mut out, mag);
    } else {
        push_dec(&mut out, ts as u64);
    }
    out.append("_ynab.csv");
    proof {
        assert(out@ =~= default_name(ts as int));
    }
    out
}

/// Resolves the output file name from the caller's choice and what the
/// file system says about it, with the clock reading `ts`: the supplied
/// path when it points at nothing yet, the generated name otherwise.
pub fn resolve_output_name(
    user: &Option<String>,
    user_is_file: bool,
    user_is_dir: bool,
    ts: i64,
) -> (r: String)
    ensures
        (match user {
            Some(p) => if !user_is_file && !user_is_dir {
                r@ == p@
            } else {
                r@ == default_name(ts as int)
            },
            None => r@ == default_name(ts as int),
        }),
{
    match user {
        Some(p) => if !user_is_file && !user_is_dir {
            p.clone()
        } else {
            default_output_name(ts)
        },
        None => default_output_name(ts),
    }
}

/// Relies on chrono's `Local::now` and `DateTime::timestamp`: the
/// wall-clock seconds since the Unix epoch at the moment of the call.
#[verifier::external_body]
fn now_unix_seconds() -> i64 {
    chrono::offset::Local::now().timestamp()
}

/// `resolve_output_name` at the present moment: the supplied path when
/// it points at nothing yet, else a generated timestamped name.
pub fn resolve_output_name_now(user: &Option<String>, user_is_file: bool, user_is_dir: bool) -> (r:
    String)
    ensures
        (match user {
            Some(p) => if !user_is_file && !user_is_dir {
                r@ == p@
            } else {
                exists|t: int| r@ == default_name(t)
            },
            None => exists|t: int| r@ == default_name(t),
        }),
{
    let ts = now_unix_seconds();
    let r = resolve_output_name(user, user_is_file, user_is_dir, ts);
    proof {
        if !(user matches Some(p) && !user_is_file && !user_is_dir) {
            assert(r@ == default_name(ts as int));
        }
    }
    r
}

proof fn lemma_dec_str_shape(n: nat)
    ensures
        dec_str(n).len() >= 1,
        forall|i: int| 0 <= i < dec_str(n).len() ==> #[trigger] dec_str(n)[i] != '-',
    decreases n,
{
    if n >= 10 {
        lemma_dec_str_shape(n / 10);
    }
}

proof fn lemma_dec_str_injective(a: nat, b: nat)
    requires
        dec_str(a) == dec_str(b),
    ensures
        a == b,
    decreases a,
{
    lemma_dec_str_shape(a);
    lemma_dec_str_shape(b);
    if a < 10 && b < 10 {
        assert(dec_str(a)[0] == dec_digit(a as int));
        assert(dec_str(b)[0] == dec_digit(b as int));
    } else if a < 10 && b >= 10 {
        lemma_dec_str_shape(b / 10);
        assert(dec_str(b).len() >= 2);
    } else if a >= 10 && b < 10 {
        lemma_dec_str_shape(a / 10);
        assert(dec_str(a).len() >= 2);
    } else {
        assert(dec_str(a).last() == dec_digit((a % 10) as int));
        assert(dec_str(b).last() == dec_digit((b % 10) as int));
        assert(a % 10 == b % 10);
        assert(dec_str(a).drop_last() =~= dec_str(a / 10));
        assert(dec_str(b).drop_last() =~= dec_str(b / 10));
        lemma_dec_str_injective(a / 10, b / 10);
        lemma_fundamental_div_mod(a as int, 10);
        lemma_fundamental_div_mod(b as int, 10);
    }
}

proof fn lemma_int_str_injective(a: int, b: int)
    requires
        int_str(a) == int_str(b),
    ensures
        a == b,
{
    if a >= 0 && b >= 0 {
        lemma_dec_str_injective(a as nat, b as nat);
    } else if a < 0 && b < 0 {
        assert(int_str(a).drop_first() =~= dec_str((-a) as nat));
        assert(int_str(b).drop_first() =~= dec_str((-b) as nat));
        lemma_dec_str_injective((-a) as nat, (-b) as nat);
    } else if a >= 0 && b < 0 {
        lemma_dec_str_shape(a as nat);
        assert(dec_str(a as nat)[0] != '-');
        assert(int_str(b)[0] == '-');
        assert(false);
    } else {
        lemma_dec_str_shape(b as nat);
        assert(dec_str(b as nat)[0] != '-');
        assert(int_str(a)[0] == '-');
        assert(false);
    }
}

/// Law: generated output names from different clock readings differ —
/// two resolutions in different seconds never collide on a file name.
pub proof fn lemma_default_name_injective(a: int, b: int)
    requires
        a != b,
    ensures
        default_name(a) != default_name(b),
{
    if default_name(a) == default_name(b) {
        let p = "rabocard_"@;
        let s = "_ynab.csv"@;
        assert(default_name(a).len() == p.len() + int_str(a).len() + s.len());
        assert(default_name(b).len() == p.len() + int_str(b).len() + s.len());
        assert(int_str(a).len() == int_str(b).len());
        let la = int_str(a).len() as int;
        assert forall|i: int| 0 <= i < la implies int_str(a)[i] == int_str(b)[i] by {
            assert(default_name(a)[p.len() + i] == int_str(a)[i]);
            assert(default_name(b)[p.len() + i] == int_str(b)[i]);
        }
        assert(int_str(a) =~= int_str(b));
        lemma_int_str_injective(a, b);
    }
}

} // verus!

