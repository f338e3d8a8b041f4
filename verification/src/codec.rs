//! The serialized circuit document: a canonical textual form that writes a
//! model losslessly and reads one back.
//!
//! [`to_json`] produces exactly the canonical serialization [`ser_model`]:
//! the model's four fields in a fixed key order, lists without spaces, a
//! function as its quoted variant name, and an embedded circuit as an object
//! with a single `Circuit` key carrying the full nested document.
//! [`from_json`] accepts exactly that canonical language — the fixed key
//! order, no whitespace, numbers without leading zeros — and returns a model
//! only after a full well-formedness check, so a loaded circuit never
//! carries an index binding outside its value space; any other text,
//! including a differently formatted rendering of the same shape, is
//! reported as `None` rather than a crash. The serialization is injective
//! ([`lemma_ser_model_injective`]): a document determines its model, so a
//! successful load returns exactly the model the document was written from.

use vstd::prelude::*;

use crate::model::CircuitModel;
use crate::model::Component;
use crate::model::Function;
use crate::model::Input;
use crate::model::Output;
use crate::model::all_below;
use crate::model::eq_component;
use crate::model::eq_function;
use crate::model::eq_model;

verus! {

/// The decimal digit character for `d`.
pub open spec fn digit_char(d: nat) -> char {
    if d == 0 {
        '0'
    } else if d == 1 {
        '1'
    } else if d == 2 {
        '2'
    } else if d == 3 {
        '3'
    } else if d == 4 {
        '4'
    } else if d == 5 {
        '5'
    } else if d == 6 {
        '6'
    } else if d == 7 {
        '7'
    } else if d == 8 {
        '8'
    } else {
        '9'
    }
}

/// Whether `c` is a decimal digit character.
pub open spec fn is_digit_char(c: char) -> bool {
    ||| c == '0'
    ||| c == '1'
    ||| c == '2'
    ||| c == '3'
    ||| c == '4'
    ||| c == '5'
    ||| c == '6'
    ||| c == '7'
    ||| c == '8'
    ||| c == '9'
}

/// The numeric value of a digit character.
pub open spec fn digit_val(c: char) -> nat {
    if c == '0' {
        0
    } else if c == '1' {
        1
    } else if c == '2' {
        2
    } else if c == '3' {
        3
    } else if c == '4' {
        4
    } else if c == '5' {
        5
    } else if c == '6' {
        6
    } else if c == '7' {
        7
    } else if c == '8' {
        8
    } else {
        9
    }
}

/// The number a digit string denotes, most significant digit first.
pub open spec fn digits_val(s: Seq<char>) -> nat
    decreases s.len(),
{
    if s.len() == 0 {
        0
    } else {
        digits_val(s.drop_last()) * 10 + digit_val(s.last())
    }
}

/// The digit character of `d` is a digit and denotes `d`.
proof fn lemma_digit_char_val(d: nat)
    requires
        d < 10,
    ensures
        is_digit_char(digit_char(d)),
        digit_val(digit_char(d)) == d,
{
}

/// A canonical number is one or more digit characters.
proof fn lemma_ser_usize_is_digits(n: nat)
    ensures
        ser_usize(n).len() >= 1,
        forall|i: int|
            0 <= i < ser_usize(n).len() ==> is_digit_char(#[trigger] ser_usize(n)[i]),
    decreases n,
{
    if n < 10 {
        lemma_digit_char_val(n);
    } else {
        lemma_ser_usize_is_digits(n / 10);
        lemma_digit_char_val(n % 10);
        assert forall|i: int| 0 <= i < ser_usize(n).len() implies is_digit_char(
            #[trigger] ser_usize(n)[i],
        ) by {
            if i < ser_usize(n / 10).len() {
                assert(ser_usize(n)[i] == ser_usize(n / 10)[i]);
            }
        }
    }
}

/// A canonical number denotes exactly the number it was written from.
proof fn lemma_digits_val_ser(n: nat)
    ensures
        digits_val(ser_usize(n)) == n,
    decreases n,
{
    if n < 10 {
        lemma_digit_char_val(n);
        let t = ser_usize(n);
        assert(t.last() == digit_char(n));
        assert(t.drop_last() =~= Seq::<char>::empty());
        assert(digits_val(t.drop_last()) == 0);
        assert(digits_val(t) == 0 * 10 + digit_val(digit_char(n)));
    } else {
        lemma_digits_val_ser(n / 10);
        lemma_digit_char_val(n % 10);
        let t = ser_usize(n);
        assert(t.last() == digit_char(n % 10));
        assert(t.drop_last() =~= ser_usize(n / 10));
        assert(digits_val(t) == digits_val(ser_usize(n / 10)) * 10 + digit_val(
            digit_char(n % 10),
        ));
    }
}

/// A digit-string prefix never denotes more than the whole string.
proof fn lemma_digits_val_prefix(s: Seq<char>, k: int)
    requires
        0 <= k <= s.len(),
    ensures
        digits_val(s.take(k)) <= digits_val(s),
    decreases s.len() - k,
{
    if k < s.len() {
        lemma_digits_val_prefix(s, k + 1);
        assert(s.take(k + 1).drop_last() =~= s.take(k));
        assert(digits_val(s.take(k + 1)) == digits_val(s.take(k)) * 10 + digit_val(
            s.take(k + 1).last(),
        ));
    } else {
        assert(s.take(k) =~= s);
    }
}

/// A canonical number starts with `0` only when it is zero.
proof fn lemma_ser_usize_head(n: nat)
    ensures
        n > 0 ==> ser_usize(n)[0] != '0',
    decreases n,
{
    if n >= 10 {
        lemma_ser_usize_head(n / 10);
        lemma_ser_usize_is_digits(n / 10);
        assert(ser_usize(n)[0] == ser_usize(n / 10)[0]);
    }
}

/// Where a canonical number stops: if the input from `pos` on is a canonical
/// number followed by a non-digit (or by nothing), then a consumed digit
/// prefix that itself ends at a non-digit (or at the end) is exactly that
/// number.
proof fn lemma_number_end(s: Seq<char>, pos: int, acc: nat, p: int, n2: nat, rest: Seq<char>)
    requires
        0 <= pos <= p <= s.len(),
        s.subrange(pos, p) == ser_usize(acc),
        s.subrange(pos, s.len() as int) == ser_usize(n2) + rest,
        rest.len() > 0 ==> !is_digit_char(rest[0]),
        p == s.len() || !is_digit_char(s[p]),
    ensures
        acc == n2,
        p == pos + ser_usize(n2).len(),
{
    lemma_ser_usize_is_digits(acc);
    lemma_ser_usize_is_digits(n2);
    let k = ser_usize(acc).len() as int;
    let kk = ser_usize(n2).len() as int;
    if k < kk {
        assert(s[pos + k] == s.subrange(pos, s.len() as int)[k]);
        assert((ser_usize(n2) + rest)[k] == ser_usize(n2)[k]);
        assert(is_digit_char(s[pos + k]));
        assert(false);
    }
    if k > kk {
        assert(ser_usize(acc)[kk] == s.subrange(pos, p)[kk]);
        assert(is_digit_char(s[pos + kk]));
        assert(s[pos + kk] == s.subrange(pos, s.len() as int)[kk]);
        assert(s.subrange(pos, s.len() as int).len() == s.len() - pos);
        assert(s.subrange(pos, s.len() as int).len() == (ser_usize(n2) + rest).len());
        assert((ser_usize(n2) + rest).len() == ser_usize(n2).len() + rest.len());
        assert(s.len() - pos == kk + rest.len());
        assert(rest.len() > 0);
        assert((ser_usize(n2) + rest)[kk] == rest[0]);
        assert(false);
    }
    assert(ser_usize(acc) =~= s.subrange(pos, s.len() as int).subrange(0, kk));
    assert(s.subrange(pos, s.len() as int).subrange(0, kk) =~= ser_usize(n2));
    lemma_digits_val_ser(acc);
    lemma_digits_val_ser(n2);
}

/// Midway through a canonical number, the value read so far, extended by the
/// digit standing at `p`, still fits under the whole number.
proof fn lemma_number_mid(s: Seq<char>, pos: int, acc: nat, p: int, d: nat, n2: nat, rest: Seq<char>)
    requires
        0 <= pos <= p < s.len(),
        s.subrange(pos, p) == ser_usize(acc),
        s.subrange(pos, s.len() as int) == ser_usize(n2) + rest,
        rest.len() > 0 ==> !is_digit_char(rest[0]),
        s[p] == digit_char(d),
        d < 10,
    ensures
        acc * 10 + d <= n2,
{
    lemma_ser_usize_is_digits(acc);
    lemma_ser_usize_is_digits(n2);
    lemma_digit_char_val(d);
    let k = ser_usize(acc).len() as int;
    let kk = ser_usize(n2).len() as int;
    if k >= kk {
        assert(s.subrange(pos, s.len() as int).len() == s.len() - pos);
        assert(s.subrange(pos, s.len() as int).len() == (ser_usize(n2) + rest).len());
        assert((ser_usize(n2) + rest).len() == ser_usize(n2).len() + rest.len());
        assert(s.len() - pos == kk + rest.len());
        if rest.len() == 0 {
            assert(p >= pos + kk);
            assert(false);
        } else {
            assert((ser_usize(n2) + rest)[kk] == rest[0]);
            assert(s[pos + kk] == s.subrange(pos, s.len() as int)[kk]);
            if kk < k {
                assert(ser_usize(acc)[kk] == s.subrange(pos, p)[kk]);
                assert(is_digit_char(s[pos + kk]));
            } else {
                assert(pos + kk == p);
                assert(is_digit_char(s[p]));
            }
            assert(false);
        }
    }
    let t = ser_usize(n2);
    assert(ser_usize(acc) =~= t.take(k)) by {
        assert forall|i: int| 0 <= i < k implies ser_usize(acc)[i] == t[i] by {
            assert(ser_usize(acc)[i] == s.subrange(pos, p)[i]);
            assert(s[pos + i] == s.subrange(pos, s.len() as int)[i]);
            assert((ser_usize(n2) + rest)[i] == t[i]);
        }
    }
    lemma_digits_val_ser(acc);
    lemma_digits_val_ser(n2);
    assert(digits_val(t.take(k)) == acc);
    assert(t[k] == s.subrange(pos, s.len() as int)[k]);
    assert(s[pos + k] == digit_char(d));
    assert(t.take(k + 1).drop_last() =~= t.take(k));
    assert(t.take(k + 1).last() == t[k]);
    assert(digits_val(t.take(k + 1)) == acc * 10 + d);
    lemma_digits_val_prefix(t, k + 1);
}

/// The canonical decimal form of `n`: most significant digit first, no
/// leading zeros, and a single `0` for zero.
pub open spec fn ser_usize(n: nat) -> Seq<char>
    decreases n,
{
    if n < 10 {
        seq![digit_char(n)]
    } else {
        ser_usize(n / 10).push(digit_char(n % 10))
    }
}

/// The first `n` entries of `s`, serialized and joined with commas.
pub open spec fn ser_usize_list(s: Seq<usize>, n: int) -> Seq<char>
    decreases n,
{
    if n <= 0 {
        Seq::empty()
    } else if n == 1 {
        ser_usize(s[0] as nat)
    } else {
        ser_usize_list(s, n - 1) + ","@ + ser_usize(s[n - 1] as nat)
    }
}

/// One input as an object with its single binding.
pub open spec fn ser_input(i: Input) -> Seq<char> {
    "{\"value_index\":"@ + ser_usize(i.value_index as nat) + "}"@
}

/// The first `n` inputs, serialized and joined with commas.
pub open spec fn ser_input_list(s: Seq<Input>, n: int) -> Seq<char>
    decreases n,
{
    if n <= 0 {
        Seq::empty()
    } else if n == 1 {
        ser_input(s[0])
    } else {
        ser_input_list(s, n - 1) + ","@ + ser_input(s[n - 1])
    }
}

/// One output as an object with its single binding.
pub open spec fn ser_output(o: Output) -> Seq<char> {
    "{\"value_index\":"@ + ser_usize(o.value_index as nat) + "}"@
}

/// The first `n` outputs, serialized and joined with commas.
pub open spec fn ser_output_list(s: Seq<Output>, n: int) -> Seq<char>
    decreases n,
{
    if n <= 0 {
        Seq::empty()
    } else if n == 1 {
        ser_output(s[0])
    } else {
        ser_output_list(s, n - 1) + ","@ + ser_output(s[n - 1])
    }
}

/// A function as its quoted variant name; an embedded circuit as an object
/// with a single `Circuit` key carrying the nested document.
pub open spec fn ser_function(f: Function) -> Seq<char>
    decreases f, 0int,
{
    match f {
        Function::And => "\"And\""@,
        Function::Or => "\"Or\""@,
        Function::Not => "\"Not\""@,
        Function::Nand => "\"Nand\""@,
        Function::Nor => "\"Nor\""@,
        Function::Circuit(c) => "{\"Circuit\":"@ + ser_model(c) + "}"@,
        Function::FlipFlopRS => "\"FlipFlopRS\""@,
        Function::FlipFlopJK => "\"FlipFlopJK\""@,
        Function::FlipFlopD => "\"FlipFlopD\""@,
        Function::FlipFlopT => "\"FlipFlopT\""@,
    }
}

/// One component: its three binding lists and its function, in a fixed key
/// order.
pub open spec fn ser_component(c: Component) -> Seq<char>
    decreases c, 0int,
{
    "{\"input_value_indices\":["@ + ser_usize_list(
        c.input_value_indices@,
        c.input_value_indices@.len() as int,
    ) + "],\"output_value_indices\":["@ + ser_usize_list(
        c.output_value_indices@,
        c.output_value_indices@.len() as int,
    ) + "],\"owned_value_indices\":["@ + ser_usize_list(
        c.owned_value_indices@,
        c.owned_value_indices@.len() as int,
    ) + "],\"function\":"@ + ser_function(c.function) + "}"@
}

/// The first `n` components, serialized and joined with commas.
pub open spec fn ser_component_list(s: Seq<Component>, n: int) -> Seq<char>
    decreases s, n,
{
    if n <= 0 || n > s.len() {
        Seq::empty()
    } else if n == 1 {
        ser_component(s[0])
    } else {
        ser_component_list(s, n - 1) + ","@ + ser_component(s[n - 1])
    }
}

/// The whole document: the model's four fields in a fixed key order.
pub open spec fn ser_model(m: CircuitModel) -> Seq<char>
    decreases m, 1int,
{
    "{\"inputs\":["@ + ser_input_list(m.inputs@, m.inputs@.len() as int)
        + "],\"outputs\":["@ + ser_output_list(m.outputs@, m.outputs@.len() as int)
        + "],\"components\":["@ + ser_component_list(m.components@, m.components@.len() as int)
        + "],\"value_list_len\":"@ + ser_usize(m.value_list_len as nat) + "}"@
}

/// The single-character string for digit `d`.
fn digit_str(d: usize) -> (r: &'static str)
    requires
        d < 10,
    ensures
        r@ == seq![digit_char(d as nat)],
{
    proof {
        reveal_strlit("0");
        reveal_strlit("1");
        reveal_strlit("2");
        reveal_strlit("3");
        reveal_strlit("4");
        reveal_strlit("5");
        reveal_strlit("6");
        reveal_strlit("7");
        reveal_strlit("8");
        reveal_strlit("9");
    }
    let r = if d == 0 {
        "0"
    } else if d == 1 {
        "1"
    } else if d == 2 {
        "2"
    } else if d == 3 {
        "3"
    } else if d == 4 {
        "4"
    } else if d == 5 {
        "5"
    } else if d == 6 {
        "6"
    } else if d == 7 {
        "7"
    } else if d == 8 {
        "8"
    } else {
        "9"
    };
    proof {
        assert(r@ =~= seq![digit_char(d as nat)]);
    }
    r
}

/// Appends the canonical decimal form of `n`.
fn write_usize(out: &mut String, n: usize)
    ensures
        final(out)@ == old(out)@ + ser_usize(n as nat),
    decreases n,
{
    if n < 10 {
        out.append(digit_str(n));
    } else {
        write_usize(out, n / 10);
        out.append(digit_str(n % 10));
        proof {
            assert(old(out)@ + ser_usize((n / 10) as nat) + seq![
                digit_char((n % 10) as nat),
            ] =~= old(out)@ + ser_usize(n as nat));
        }
    }
}

/// Appends the comma-joined canonical forms of all entries of `v`.
fn write_usize_list(out: &mut String, v: &Vec<usize>)
    ensures
        final(out)@ == old(out)@ + ser_usize_list(v@, v@.len() as int),
{
    let n = v.len();
    let mut i: usize = 0;
    while i < n
        invariant
            i <= n,
            n == v@.len(),
            out@ == old(out)@ + ser_usize_list(v@, i as int),
        decreases n - i,
    {
        if i > 0 {
            out.append(",");
        }
        write_usize(out, v[i]);
        proof {
            if i == 0 {
                assert(old(out)@ + ser_usize_list(v@, 0int) + ser_usize(v@[0] as nat) =~= old(
                    out,
                )@ + ser_usize_list(v@, 1int));
            } else {
                assert(old(out)@ + ser_usize_list(v@, i as int) + ","@ + ser_usize(
                    v@[i as int] as nat,
                ) =~= old(out)@ + ser_usize_list(v@, i as int + 1));
            }
        }
        i = i + 1;
    }
}

/// Appends the comma-joined serializations of all inputs.
fn write_input_list(out: &mut String, v: &Vec<Input>)
    ensures
        final(out)@ == old(out)@ + ser_input_list(v@, v@.len() as int),
{
    let n = v.len();
    let mut i: usize = 0;
    while i < n
        invariant
            i <= n,
            n == v@.len(),
            out@ == old(out)@ + ser_input_list(v@, i as int),
        decreases n - i,
    {
        if i > 0 {
            out.append(",");
        }
        out.append("{\"value_index\":");
        write_usize(out, v[i].value_index);
        out.append("}");
        proof {
            if i == 0 {
                assert(old(out)@ + ser_input_list(v@, 0int) + "{\"value_index\":"@ + ser_usize(
                    v@[0].value_index as nat,
                ) + "}"@ =~= old(out)@ + ser_input_list(v@, 1int));
            } else {
                assert(old(out)@ + ser_input_list(v@, i as int) + ","@ + "{\"value_index\":"@
                    + ser_usize(v@[i as int].value_index as nat) + "}"@ =~= old(out)@
                    + ser_input_list(v@, i as int + 1));
            }
        }
        i = i + 1;
    }
}

/// Appends the comma-joined serializations of all outputs.
fn write_output_list(out: &mut String, v: &Vec<Output>)
    ensures
        final(out)@ == old(out)@ + ser_output_list(v@, v@.len() as int),
{
    let n = v.len();
    let mut i: usize = 0;
    while i < n
        invariant
            i <= n,
            n == v@.len(),
            out@ == old(out)@ + ser_output_list(v@, i as int),
        decreases n - i,
    {
        if i > 0 {
            out.append(",");
        }
        out.append("{\"value_index\":");
        write_usize(out, v[i].value_index);
        out.append("}");
        proof {
            if i == 0 {
                assert(old(out)@ + ser_output_list(v@, 0int) + "{\"value_index\":"@ + ser_usize(
                    v@[0].value_index as nat,
                ) + "}"@ =~= old(out)@ + ser_output_list(v@, 1int));
            } else {
                assert(old(out)@ + ser_output_list(v@, i as int) + ","@ + "{\"value_index\":"@
                    + ser_usize(v@[i as int].value_index as nat) + "}"@ =~= old(out)@
                    + ser_output_list(v@, i as int + 1));
            }
        }
        i = i + 1;
    }
}

/// Appends one function's serialization.
fn write_function(out: &mut String, f: &Function)
    ensures
        final(out)@ == old(out)@ + ser_function(*f),
    decreases f, 0int,
{
    match f {
        Function::And => out.append("\"And\""),
        Function::Or => out.append("\"Or\""),
        Function::Not => out.append("\"Not\""),
        Function::Nand => out.append("\"Nand\""),
        Function::Nor => out.append("\"Nor\""),
        Function::Circuit(c) => {
            out.append("{\"Circuit\":");
            write_model(out, c);
            out.append("}");
            proof {
                assert(old(out)@ + "{\"Circuit\":"@ + ser_model(*c) + "}"@ =~= old(out)@
                    + ser_function(*f));
            }
        },
        Function::FlipFlopRS => out.append("\"FlipFlopRS\""),
        Function::FlipFlopJK => out.append("\"FlipFlopJK\""),
        Function::FlipFlopD => out.append("\"FlipFlopD\""),
        Function::FlipFlopT => out.append("\"FlipFlopT\""),
    }
}

/// Appends one component's serialization.
fn write_component(out: &mut String, c: &Component)
    ensures
        final(out)@ == old(out)@ + ser_component(*c),
    decreases c, 1int,
{
    out.append("{\"input_value_indices\":[");
    write_usize_list(out, &c.input_value_indices);
    out.append("],\"output_value_indices\":[");
    write_usize_list(out, &c.output_value_indices);
    out.append("],\"owned_value_indices\":[");
    write_usize_list(out, &c.owned_value_indices);
    out.append("],\"function\":");
    write_function(out, &c.function);
    out.append("}");
    proof {
        assert(out@ =~= old(out)@ + ser_component(*c));
    }
}

/// Appends the comma-joined serializations of all components.
fn write_component_list(out: &mut String, v: &Vec<Component>)
    ensures
        final(out)@ == old(out)@ + ser_component_list(v@, v@.len() as int),
    decreases v, 2int,
{
    let n = v.len();
    let mut i: usize = 0;
    while i < n
        invariant
            i <= n,
            n == v@.len(),
            out@ == old(out)@ + ser_component_list(v@, i as int),
        decreases n - i,
    {
        if i > 0 {
            out.append(",");
        }
        proof {
            assert(decreases_to!(v, 2int => v@[i as int], 1int));
        }
        write_component(out, &v[i]);
        proof {
            if i == 0 {
                assert(old(out)@ + ser_component_list(v@, 0int) + ser_component(v@[0]) =~= old(
                    out,
                )@ + ser_component_list(v@, 1int));
            } else {
                assert(old(out)@ + ser_component_list(v@, i as int) + ","@ + ser_component(
                    v@[i as int],
                ) =~= old(out)@ + ser_component_list(v@, i as int + 1));
            }
        }
        i = i + 1;
    }
}

/// Appends one model's whole document.
fn write_model(out: &mut String, m: &CircuitModel)
    ensures
        final(out)@ == old(out)@ + ser_model(*m),
    decreases m, 3int,
{
    out.append("{\"inputs\":[");
    write_input_list(out, &m.inputs);
    out.append("],\"outputs\":[");
    write_output_list(out, &m.outputs);
    out.append("],\"components\":[");
    proof {
        assert(decreases_to!(m, 3int => m.components, 2int));
    }
    write_component_list(out, &m.components);
    out.append("],\"value_list_len\":");
    write_usize(out, m.value_list_len);
    out.append("}");
    proof {
        assert(out@ =~= old(out)@ + ser_model(*m));
    }
}

/// Serializes a model into its canonical document, exactly [`ser_model`].
pub fn to_json(m: &CircuitModel) -> (r: String)
    ensures
        r@ == ser_model(*m),
{
    let mut out = String::new();
    write_model(&mut out, m);
    proof {
        assert(Seq::<char>::empty() + ser_model(*m) =~= ser_model(*m));
    }
    out
}


/// Serializing the first `n` entries ignores entries appended later.
proof fn lemma_ser_usize_list_push(s: Seq<usize>, x: usize, n: int)
    requires
        n <= s.len(),
    ensures
        ser_usize_list(s.push(x), n) == ser_usize_list(s, n),
    decreases n,
{
    if n > 1 {
        lemma_ser_usize_list_push(s, x, n - 1);
    }
}

/// Serializing the first `n` inputs ignores inputs appended later.
proof fn lemma_ser_input_list_push(s: Seq<Input>, x: Input, n: int)
    requires
        n <= s.len(),
    ensures
        ser_input_list(s.push(x), n) == ser_input_list(s, n),
    decreases n,
{
    if n > 1 {
        lemma_ser_input_list_push(s, x, n - 1);
    }
}

/// Serializing the first `n` outputs ignores outputs appended later.
proof fn lemma_ser_output_list_push(s: Seq<Output>, x: Output, n: int)
    requires
        n <= s.len(),
    ensures
        ser_output_list(s.push(x), n) == ser_output_list(s, n),
    decreases n,
{
    if n > 1 {
        lemma_ser_output_list_push(s, x, n - 1);
    }
}

/// Serializing the first `n` components ignores components appended later.
proof fn lemma_ser_component_list_push(s: Seq<Component>, x: Component, n: int)
    requires
        n <= s.len(),
    ensures
        ser_component_list(s.push(x), n) == ser_component_list(s, n),
    decreases n,
{
    if n > 1 {
        lemma_ser_component_list_push(s, x, n - 1);
    }
}

/// Matches the literal `lit` at position `pos` of `s`; on success the new
/// position is just past it.
fn expect_lit(s: &str, pos: usize, lit: &str) -> (r: Option<usize>)
    requires
        pos <= s@.len(),
    ensures
        r matches Some(p) ==> pos <= p <= s@.len() && p == pos + lit@.len() && s@.subrange(
            pos as int,
            p as int,
        ) == lit@,
        (pos + lit@.len() <= s@.len() && s@.subrange(pos as int, pos + lit@.len() as int)
            == lit@) ==> r == Some((pos + lit@.len()) as usize),
{
    let slen = s.unicode_len();
    let llen = lit.unicode_len();
    if llen > slen - pos {
        return None;
    }
    let mut k: usize = 0;
    while k < llen
        invariant
            k <= llen,
            pos + llen <= slen,
            slen == s@.len(),
            llen == lit@.len(),
            forall|t: int| 0 <= t < k ==> s@[pos + t] == lit@[t],
        decreases llen - k,
    {
        if s.get_char(pos + k) != lit.get_char(k) {
            return None;
        }
        k = k + 1;
    }
    proof {
        assert(s@.subrange(pos as int, (pos + llen) as int) =~= lit@);
    }
    Some(pos + llen)
}

/// Reads a canonical decimal number at `pos`: at least one digit, no
/// leading zeros, rejecting one that does not fit the machine word. What it
/// consumed is exactly the canonical form of what it returns; and wherever
/// the input continues with a canonical number followed by a non-digit (or
/// by nothing), reading succeeds with exactly that number.
fn parse_usize(s: &str, pos: usize) -> (r: Option<(usize, usize)>)
    requires
        pos <= s@.len(),
    ensures
        r matches Some(t) ==> pos < t.1 <= s@.len() && s@.subrange(pos as int, t.1 as int)
            == ser_usize(t.0 as nat),
        forall|n2: nat, rest: Seq<char>|
            (n2 <= usize::MAX && s@.subrange(pos as int, s@.len() as int) == #[trigger] (ser_usize(n2) + rest) && (rest.len() > 0 ==> !is_digit_char(rest[0]))) ==> r == Some(
                ((n2 as usize), (pos + ser_usize(n2).len()) as usize),
            ),
{
    let slen = s.unicode_len();
    if pos >= slen {
        proof {
            assert forall|n2: nat, rest: Seq<char>|
                (n2 <= usize::MAX && s@.subrange(pos as int, s@.len() as int) == #[trigger] (
                ser_usize(n2) + rest) && (rest.len() > 0 ==> !is_digit_char(rest[0]))) implies false by {
                lemma_ser_usize_is_digits(n2);
                assert(s@.subrange(pos as int, s@.len() as int).len() == 0);
                assert((ser_usize(n2) + rest).len() >= 1);
            }
        }
        return None;
    }
    let c0 = s.get_char(pos);
    let d0 = match char_digit(c0) {
        None => {
            proof {
                assert forall|n2: nat, rest: Seq<char>|
                    (n2 <= usize::MAX && s@.subrange(pos as int, s@.len() as int)
                        == #[trigger] (ser_usize(n2) + rest) && (rest.len() > 0 ==> !is_digit_char(
                        rest[0],
                    ))) implies false by {
                    lemma_ser_usize_is_digits(n2);
                    assert(s@[pos as int] == s@.subrange(pos as int, s@.len() as int)[0]);
                    assert((ser_usize(n2) + rest)[0] == ser_usize(n2)[0]);
                    assert(is_digit_char(s@[pos as int]));
                }
            }
            return None;
        },
        Some(d) => d,
    };
    let mut p = pos + 1;
    let mut n: usize = d0;
    proof {
        assert(s@.subrange(pos as int, p as int) =~= seq![s@[pos as int]]);
    }
    if d0 == 0 {
        // a canonical zero is the single digit
        proof {
            assert forall|n2: nat, rest: Seq<char>|
                (n2 <= usize::MAX && s@.subrange(pos as int, s@.len() as int) == #[trigger] (ser_usize(n2) + rest) && (rest.len() > 0 ==> !is_digit_char(rest[0]))) implies Some((
                0usize,
                (pos + 1) as usize,
            )) == Some(((n2 as usize), (pos + ser_usize(n2).len()) as usize)) by {
                lemma_ser_usize_is_digits(n2);
                lemma_ser_usize_head(n2);
                assert(s@[pos as int] == s@.subrange(pos as int, s@.len() as int)[0]);
                assert((ser_usize(n2) + rest)[0] == ser_usize(n2)[0]);
                assert(ser_usize(n2)[0] == '0');
                assert(n2 == 0);
            }
        }
        return Some((0, p));
    }
    while p < slen
        invariant
            pos < p <= slen,
            slen == s@.len(),
            n >= 1,
            s@.subrange(pos as int, p as int) == ser_usize(n as nat),
        decreases slen - p,
    {
        let c = s.get_char(p);
        let d = match char_digit(c) {
            None => {
                proof {
                    assert forall|n2: nat, rest: Seq<char>|
                        (n2 <= usize::MAX && s@.subrange(pos as int, s@.len() as int)
                            == #[trigger] (ser_usize(n2) + rest) && (rest.len() > 0
                            ==> !is_digit_char(rest[0]))) implies Some((n, p)) == Some((
                        (n2 as usize),
                        (pos + ser_usize(n2).len()) as usize,
                    )) by {
                        lemma_number_end(
                            s@,
                            pos as int,
                            n as nat,
                            p as int,
                            n2,
                            rest,
                        );
                    }
                }
                return Some((n, p));
            },
            Some(d) => d,
        };
        if n > (usize::MAX - d) / 10 {
            proof {
                assert forall|n2: nat, rest: Seq<char>|
                    (n2 <= usize::MAX && s@.subrange(pos as int, s@.len() as int)
                        == #[trigger] (ser_usize(n2) + rest) && (rest.len() > 0 ==> !is_digit_char(
                        rest[0],
                    ))) implies false by {
                    {
                        lemma_number_mid(
                            s@,
                            pos as int,
                            n as nat,
                            p as int,
                            d as nat,
                            n2,
                            rest,
                        );
                        assert(n * 10 + d <= usize::MAX);
                        assert(n <= (usize::MAX - d) / 10) by (nonlinear_arith)
                            requires
                                n * 10 + d <= usize::MAX,
                                0 <= d < 10,
                        ;
                        assert(false);
                    }
                }
            }
            return None;
        }
        proof {
            assert((usize::MAX - d) / 10 * 10 + d <= usize::MAX) by (nonlinear_arith);
            assert(n * 10 <= (usize::MAX - d) / 10 * 10) by (nonlinear_arith)
                requires n <= (usize::MAX - d) / 10;
            assert((n * 10 + d) / 10 == n && (n * 10 + d) % 10 == d) by (nonlinear_arith)
                requires n * 10 + d <= usize::MAX && 0 <= d < 10 && n >= 0;
        }
        let ghost n0 = n as nat;
        n = n * 10 + d;
        proof {
            assert(ser_usize(n as nat) == ser_usize(n0).push(digit_char(d as nat)));
            assert(s@.subrange(pos as int, (p + 1) as int) =~= s@.subrange(
                pos as int,
                p as int,
            ).push(s@[p as int]));
        }
        p = p + 1;
    }
    proof {
        assert forall|n2: nat, rest: Seq<char>|
            (n2 <= usize::MAX && s@.subrange(pos as int, s@.len() as int) == #[trigger] (ser_usize(n2) + rest) && (rest.len() > 0 ==> !is_digit_char(rest[0]))) implies Some((n, p)) == Some(
            ((n2 as usize), (pos + ser_usize(n2).len()) as usize),
        ) by {
            lemma_number_end(s@, pos as int, n as nat, p as int, n2, rest);
        }
    }
    Some((n, p))
}

/// The value of a decimal digit character, if `c` is one.
fn char_digit(c: char) -> (r: Option<usize>)
    ensures
        r matches Some(d) ==> d < 10 && c == digit_char(d as nat),
        r is None ==> !is_digit_char(c),
{
    if c == '0' {
        Some(0)
    } else if c == '1' {
        Some(1)
    } else if c == '2' {
        Some(2)
    } else if c == '3' {
        Some(3)
    } else if c == '4' {
        Some(4)
    } else if c == '5' {
        Some(5)
    } else if c == '6' {
        Some(6)
    } else if c == '7' {
        Some(7)
    } else if c == '8' {
        Some(8)
    } else if c == '9' {
        Some(9)
    } else {
        None
    }
}

/// Reads a comma-separated list of numbers closed by `]`, which may be
/// empty; what it consumed is exactly the canonical form of what it
/// returns, with the closing bracket.
fn parse_usize_items(s: &str, pos: usize) -> (r: Option<(Vec<usize>, usize)>)
    requires
        pos <= s@.len(),
    ensures
        r matches Some(t) ==> pos < t.1 <= s@.len() && s@.subrange(pos as int, t.1 as int)
            == ser_usize_list(t.0@, t.0@.len() as int) + "]"@,
{
    proof {
        reveal_strlit("]");
        reveal_strlit(",");
    }
    match expect_lit(s, pos, "]") {
        Some(p) => {
            proof {
                assert(ser_usize_list(Seq::<usize>::empty(), 0int) + "]"@ =~= "]"@);
            }
            return Some((Vec::new(), p));
        },
        None => {},
    }
    let mut items: Vec<usize> = Vec::new();
    let mut p = pos;
    let mut done = false;
    while !done
        invariant
            pos <= p <= s@.len(),
            done ==> pos < p,
            !done && items@.len() == 0 ==> p == pos,
            !done && items@.len() > 0 ==> s@.subrange(pos as int, p as int) == ser_usize_list(
                items@,
                items@.len() as int,
            ) + ","@,
            done ==> s@.subrange(pos as int, p as int) == ser_usize_list(
                items@,
                items@.len() as int,
            ) + "]"@,
        decreases s@.len() - p + (if done { 0int } else { 1int }),
    {
        let ghost items0 = items@;
        let ghost pa = p as int;
        let (n, p2) = match parse_usize(s, p) {
            None => {
                return None;
            },
            Some(t) => t,
        };
        items.push(n);
        proof {
            lemma_ser_usize_list_push(items0, n, items0.len() as int);
            assert(s@.subrange(pos as int, p2 as int) =~= s@.subrange(pos as int, pa)
                + s@.subrange(pa, p2 as int));
            if items0.len() == 0 {
                assert(s@.subrange(pos as int, p2 as int) =~= ser_usize_list(
                    items@,
                    items@.len() as int,
                ));
            } else {
                assert(s@.subrange(pos as int, p2 as int) =~= ser_usize_list(
                    items@,
                    items@.len() as int,
                ));
            }
        }
        p = p2;
        let ghost pb = p as int;
        match expect_lit(s, p, "]") {
            Some(p3) => {
                proof {
                    assert(s@.subrange(pos as int, p3 as int) =~= s@.subrange(pos as int, pb)
                        + s@.subrange(pb, p3 as int));
                }
                p = p3;
                done = true;
            },
            None => {
                match expect_lit(s, p, ",") {
                    Some(p3) => {
                        proof {
                            assert(s@.subrange(pos as int, p3 as int) =~= s@.subrange(
                                pos as int,
                                pb,
                            ) + s@.subrange(pb, p3 as int));
                        }
                        p = p3;
                    },
                    None => {
                        return None;
                    },
                }
            },
        }
    }
    Some((items, p))
}

/// How an input or output object decomposes: the key literal, the canonical
/// number, and the closing brace, in place.
proof fn lemma_binding_split(s: Seq<char>, pos: int, num: nat, rest: Seq<char>)
    requires
        0 <= pos <= s.len(),
        s.subrange(pos, s.len() as int) == ("{\"value_index\":"@ + ser_usize(num) + "}"@) + rest,
    ensures
        pos + "{\"value_index\":"@.len() + ser_usize(num).len() + 1 <= s.len(),
        s.subrange(pos, pos + "{\"value_index\":"@.len()) == "{\"value_index\":"@,
        s.subrange(pos + "{\"value_index\":"@.len(), s.len() as int) == ser_usize(num) + (
        "}"@ + rest),
        s.subrange(
            pos + "{\"value_index\":"@.len() + ser_usize(num).len(),
            pos + "{\"value_index\":"@.len() + ser_usize(num).len() + 1,
        ) == "}"@,
        !is_digit_char(("}"@ + rest)[0]),
{
    reveal_strlit("{\"value_index\":");
    reveal_strlit("}");
    let l = "{\"value_index\":"@.len() as int;
    let k = ser_usize(num).len() as int;
    let total = "{\"value_index\":"@ + ser_usize(num) + "}"@;
    assert(s.subrange(pos, s.len() as int).len() == (total + rest).len());
    assert(s.len() - pos == total.len() + rest.len());
    assert forall|i: int| 0 <= i < s.len() - pos implies s[pos + i] == (total + rest)[i] by {
        assert(s.subrange(pos, s.len() as int)[i] == s[pos + i]);
    }
    assert(s.subrange(pos, pos + l) =~= "{\"value_index\":"@) by {
        assert forall|i: int| 0 <= i < l implies s.subrange(pos, pos + l)[i]
            == "{\"value_index\":"@[i] by {
            assert(s.subrange(pos, pos + l)[i] == s[pos + i]);
            assert((total + rest)[i] == total[i]);
            assert(total[i] == "{\"value_index\":"@[i]);
        }
    }
    assert(s.subrange(pos + l, s.len() as int) =~= ser_usize(num) + ("}"@ + rest)) by {
        assert forall|i: int| 0 <= i < s.len() - pos - l implies s.subrange(
            pos + l,
            s.len() as int,
        )[i] == (ser_usize(num) + ("}"@ + rest))[i] by {
            assert(s.subrange(pos + l, s.len() as int)[i] == s[pos + l + i]);
            assert((total + rest)[l + i] == s[pos + l + i]);
            if i < k {
                assert(total[l + i] == ser_usize(num)[i]);
            } else if i == k {
                assert(total[l + i] == '}');
            } else {
                assert((total + rest)[l + i] == rest[i - k - 1]);
            }
        }
    }
    assert(s.subrange(pos + l + k, pos + l + k + 1) =~= "}"@) by {
        assert(s.subrange(pos + l + k, pos + l + k + 1)[0] == s[pos + l + k]);
        assert((total + rest)[l + k] == total[l + k]);
        assert(total[l + k] == '}');
    }
    assert(("}"@ + rest)[0] == '}');
}

/// Reads one input object; what it consumed is exactly its canonical form,
/// and wherever the input continues with a canonical input object, reading
/// succeeds with exactly that object.
fn parse_input(s: &str, pos: usize) -> (r: Option<(Input, usize)>)
    requires
        pos <= s@.len(),
    ensures
        r matches Some(t) ==> pos < t.1 <= s@.len() && s@.subrange(pos as int, t.1 as int)
            == ser_input(t.0),
        forall|x: Input, rest: Seq<char>|
            s@.subrange(pos as int, s@.len() as int) == #[trigger] (ser_input(x) + rest) ==> r
                == Some((x, (pos + ser_input(x).len()) as usize)),
{
    match expect_lit(s, pos, "{\"value_index\":") {
        None => {
            proof {
                assert forall|x: Input, rest: Seq<char>|
                    s@.subrange(pos as int, s@.len() as int) == #[trigger] (ser_input(x) + rest)
                        implies false by {
                    lemma_binding_split(s@, pos as int, x.value_index as nat, rest);
                }
            }
            None
        },
        Some(p1) => match parse_usize(s, p1) {
            None => {
                proof {
                    assert forall|x: Input, rest: Seq<char>|
                        s@.subrange(pos as int, s@.len() as int) == #[trigger] (ser_input(x)
                            + rest) implies false by {
                        lemma_binding_split(s@, pos as int, x.value_index as nat, rest);
                        assert(s@.subrange(p1 as int, s@.len() as int) == ser_usize(
                            x.value_index as nat,
                        ) + ("}"@ + rest));
                    }
                }
                None
            },
            Some((n, p2)) => match expect_lit(s, p2, "}") {
                None => {
                    proof {
                        assert forall|x: Input, rest: Seq<char>|
                            s@.subrange(pos as int, s@.len() as int) == #[trigger] (ser_input(x)
                                + rest) implies false by {
                            lemma_binding_split(s@, pos as int, x.value_index as nat, rest);
                            assert(s@.subrange(p1 as int, s@.len() as int) == ser_usize(
                                x.value_index as nat,
                            ) + ("}"@ + rest));
                        }
                    }
                    None
                },
                Some(p3) => {
                    proof {
                        assert(s@.subrange(pos as int, p3 as int) =~= s@.subrange(
                            pos as int,
                            p1 as int,
                        ) + s@.subrange(p1 as int, p2 as int) + s@.subrange(p2 as int, p3 as int));
                        assert forall|x: Input, rest: Seq<char>|
                            s@.subrange(pos as int, s@.len() as int) == #[trigger] (ser_input(x)
                                + rest) implies Some((Input { value_index: n }, p3)) == Some(
                            (x, (pos + ser_input(x).len()) as usize),
                        ) by {
                            lemma_binding_split(s@, pos as int, x.value_index as nat, rest);
                            assert(s@.subrange(p1 as int, s@.len() as int) == ser_usize(
                                x.value_index as nat,
                            ) + ("}"@ + rest));
                        }
                    }
                    Some((Input { value_index: n }, p3))
                },
            },
        },
    }
}

/// Reads one output object; what it consumed is exactly its canonical form,
/// and wherever the input continues with a canonical output object, reading
/// succeeds with exactly that object.
fn parse_output(s: &str, pos: usize) -> (r: Option<(Output, usize)>)
    requires
        pos <= s@.len(),
    ensures
        r matches Some(t) ==> pos < t.1 <= s@.len() && s@.subrange(pos as int, t.1 as int)
            == ser_output(t.0),
        forall|x: Output, rest: Seq<char>|
            s@.subrange(pos as int, s@.len() as int) == #[trigger] (ser_output(x) + rest) ==> r
                == Some((x, (pos + ser_output(x).len()) as usize)),
{
    match expect_lit(s, pos, "{\"value_index\":") {
        None => {
            proof {
                assert forall|x: Output, rest: Seq<char>|
                    s@.subrange(pos as int, s@.len() as int) == #[trigger] (ser_output(x) + rest)
                        implies false by {
                    lemma_binding_split(s@, pos as int, x.value_index as nat, rest);
                }
            }
            None
        },
        Some(p1) => match parse_usize(s, p1) {
            None => {
                proof {
                    assert forall|x: Output, rest: Seq<char>|
                        s@.subrange(pos as int, s@.len() as int) == #[trigger] (ser_output(x)
                            + rest) implies false by {
                        lemma_binding_split(s@, pos as int, x.value_index as nat, rest);
                        assert(s@.subrange(p1 as int, s@.len() as int) == ser_usize(
                            x.value_index as nat,
                        ) + ("}"@ + rest));
                    }
                }
                None
            },
            Some((n, p2)) => match expect_lit(s, p2, "}") {
                None => {
                    proof {
                        assert forall|x: Output, rest: Seq<char>|
                            s@.subrange(pos as int, s@.len() as int) == #[trigger] (ser_output(x)
                                + rest) implies false by {
                            lemma_binding_split(s@, pos as int, x.value_index as nat, rest);
                            assert(s@.subrange(p1 as int, s@.len() as int) == ser_usize(
                                x.value_index as nat,
                            ) + ("}"@ + rest));
                        }
                    }
                    None
                },
                Some(p3) => {
                    proof {
                        assert(s@.subrange(pos as int, p3 as int) =~= s@.subrange(
                            pos as int,
                            p1 as int,
                        ) + s@.subrange(p1 as int, p2 as int) + s@.subrange(p2 as int, p3 as int));
                        assert forall|x: Output, rest: Seq<char>|
                            s@.subrange(pos as int, s@.len() as int) == #[trigger] (ser_output(x)
                                + rest) implies Some((Output { value_index: n }, p3)) == Some(
                            (x, (pos + ser_output(x).len()) as usize),
                        ) by {
                            lemma_binding_split(s@, pos as int, x.value_index as nat, rest);
                            assert(s@.subrange(p1 as int, s@.len() as int) == ser_usize(
                                x.value_index as nat,
                            ) + ("}"@ + rest));
                        }
                    }
                    Some((Output { value_index: n }, p3))
                },
            },
        },
    }
}

/// Reads one function: a quoted variant name, or an object with a single
/// `Circuit` key carrying a nested document; what it consumed is exactly
/// its canonical form.
fn parse_function(s: &str, pos: usize) -> (r: Option<(Function, usize)>)
    requires
        pos <= s@.len(),
    ensures
        r matches Some(t) ==> pos < t.1 <= s@.len() && s@.subrange(pos as int, t.1 as int)
            == ser_function(t.0),
    decreases s@.len() - pos, 0int,
{
    proof {
        reveal_strlit("\"And\"");
        reveal_strlit("\"Or\"");
        reveal_strlit("\"Not\"");
        reveal_strlit("\"Nand\"");
        reveal_strlit("\"Nor\"");
        reveal_strlit("\"FlipFlopRS\"");
        reveal_strlit("\"FlipFlopJK\"");
        reveal_strlit("\"FlipFlopD\"");
        reveal_strlit("\"FlipFlopT\"");
        reveal_strlit("{\"Circuit\":");
        reveal_strlit("}");
    }
    match expect_lit(s, pos, "\"And\"") {
        Some(p) => {
            return Some((Function::And, p));
        },
        None => {},
    }
    match expect_lit(s, pos, "\"Or\"") {
        Some(p) => {
            return Some((Function::Or, p));
        },
        None => {},
    }
    match expect_lit(s, pos, "\"Not\"") {
        Some(p) => {
            return Some((Function::Not, p));
        },
        None => {},
    }
    match expect_lit(s, pos, "\"Nand\"") {
        Some(p) => {
            return Some((Function::Nand, p));
        },
        None => {},
    }
    match expect_lit(s, pos, "\"Nor\"") {
        Some(p) => {
            return Some((Function::Nor, p));
        },
        None => {},
    }
    match expect_lit(s, pos, "\"FlipFlopRS\"") {
        Some(p) => {
            return Some((Function::FlipFlopRS, p));
        },
        None => {},
    }
    match expect_lit(s, pos, "\"FlipFlopJK\"") {
        Some(p) => {
            return Some((Function::FlipFlopJK, p));
        },
        None => {},
    }
    match expect_lit(s, pos, "\"FlipFlopD\"") {
        Some(p) => {
            return Some((Function::FlipFlopD, p));
        },
        None => {},
    }
    match expect_lit(s, pos, "\"FlipFlopT\"") {
        Some(p) => {
            return Some((Function::FlipFlopT, p));
        },
        None => {},
    }
    match expect_lit(s, pos, "{\"Circuit\":") {
        None => None,
        Some(p1) => match parse_model(s, p1) {
            None => None,
            Some((m, p2)) => match expect_lit(s, p2, "}") {
                None => None,
                Some(p3) => {
                    proof {
                        assert(s@.subrange(pos as int, p3 as int) =~= s@.subrange(
                            pos as int,
                            p1 as int,
                        ) + s@.subrange(p1 as int, p2 as int) + s@.subrange(p2 as int, p3 as int));
                    }
                    Some((Function::Circuit(m), p3))
                },
            },
        },
    }
}

/// Reads one component object, with its keys in the canonical order; what
/// it consumed is exactly its canonical form.
fn parse_component(s: &str, pos: usize) -> (r: Option<(Component, usize)>)
    requires
        pos <= s@.len(),
    ensures
        r matches Some(t) ==> pos < t.1 <= s@.len() && s@.subrange(pos as int, t.1 as int)
            == ser_component(t.0),
    decreases s@.len() - pos, 1int,
{
    proof {
        reveal_strlit("{\"input_value_indices\":[");
        reveal_strlit(",\"output_value_indices\":[");
        reveal_strlit(",\"owned_value_indices\":[");
        reveal_strlit(",\"function\":");
        reveal_strlit("],\"output_value_indices\":[");
        reveal_strlit("],\"owned_value_indices\":[");
        reveal_strlit("],\"function\":");
        reveal_strlit("}");
        reveal_strlit("]");
    }
    let p1 = match expect_lit(s, pos, "{\"input_value_indices\":[") {
        None => {
            return None;
        },
        Some(p) => p,
    };
    let (input_value_indices, p2) = match parse_usize_items(s, p1) {
        None => {
            return None;
        },
        Some(t) => t,
    };
    let p3 = match expect_lit(s, p2, ",\"output_value_indices\":[") {
        None => {
            return None;
        },
        Some(p) => p,
    };
    let (output_value_indices, p4) = match parse_usize_items(s, p3) {
        None => {
            return None;
        },
        Some(t) => t,
    };
    let p5 = match expect_lit(s, p4, ",\"owned_value_indices\":[") {
        None => {
            return None;
        },
        Some(p) => p,
    };
    let (owned_value_indices, p6) = match parse_usize_items(s, p5) {
        None => {
            return None;
        },
        Some(t) => t,
    };
    let p7 = match expect_lit(s, p6, ",\"function\":") {
        None => {
            return None;
        },
        Some(p) => p,
    };
    let (function, p8) = match parse_function(s, p7) {
        None => {
            return None;
        },
        Some(t) => t,
    };
    let p9 = match expect_lit(s, p8, "}") {
        None => {
            return None;
        },
        Some(p) => p,
    };
    let c = Component { function, input_value_indices, output_value_indices, owned_value_indices };
    proof {
        assert("]"@ + ",\"output_value_indices\":["@ =~= "],\"output_value_indices\":["@);
        assert("]"@ + ",\"owned_value_indices\":["@ =~= "],\"owned_value_indices\":["@);
        assert("]"@ + ",\"function\":"@ =~= "],\"function\":"@);
        assert(s@.subrange(pos as int, p9 as int) =~= s@.subrange(pos as int, p1 as int)
            + s@.subrange(p1 as int, p2 as int) + s@.subrange(p2 as int, p3 as int) + s@.subrange(
            p3 as int,
            p4 as int,
        ) + s@.subrange(p4 as int, p5 as int) + s@.subrange(p5 as int, p6 as int) + s@.subrange(
            p6 as int,
            p7 as int,
        ) + s@.subrange(p7 as int, p8 as int) + s@.subrange(p8 as int, p9 as int));
        assert(s@.subrange(pos as int, p9 as int) =~= ser_component(c));
    }
    Some((c, p9))
}

/// Gluing a parsed document back together: nine adjacent consumed segments
/// with the canonical contents of a model's fields concatenate to exactly
/// the model's serialization.
proof fn lemma_model_assembly(
    s: Seq<char>,
    pos: int,
    pa: int,
    pb: int,
    pc: int,
    pd: int,
    pe: int,
    pf: int,
    pg: int,
    ph: int,
    pi: int,
    m: CircuitModel,
)
    requires
        0 <= pos <= pa <= pb <= pc <= pd <= pe <= pf <= pg <= ph <= pi <= s.len(),
        s.subrange(pos, pa) == "{\"inputs\":["@,
        s.subrange(pa, pb) == ser_input_list(m.inputs@, m.inputs@.len() as int) + "]"@,
        s.subrange(pb, pc) == ",\"outputs\":["@,
        s.subrange(pc, pd) == ser_output_list(m.outputs@, m.outputs@.len() as int) + "]"@,
        s.subrange(pd, pe) == ",\"components\":["@,
        s.subrange(pe, pf) == ser_component_list(m.components@, m.components@.len() as int)
            + "]"@,
        s.subrange(pf, pg) == ",\"value_list_len\":"@,
        s.subrange(pg, ph) == ser_usize(m.value_list_len as nat),
        s.subrange(ph, pi) == "}"@,
    ensures
        s.subrange(pos, pi) == ser_model(m),
{
    reveal_strlit("{\"inputs\":[");
    reveal_strlit(",\"outputs\":[");
    reveal_strlit(",\"components\":[");
    reveal_strlit(",\"value_list_len\":");
    reveal_strlit("],\"outputs\":[");
    reveal_strlit("],\"components\":[");
    reveal_strlit("],\"value_list_len\":");
    reveal_strlit("}");
    reveal_strlit("]");
    assert("]"@ + ",\"outputs\":["@ =~= "],\"outputs\":["@);
    assert("]"@ + ",\"components\":["@ =~= "],\"components\":["@);
    assert("]"@ + ",\"value_list_len\":"@ =~= "],\"value_list_len\":"@);
    assert(s.subrange(pos, pi) =~= s.subrange(pos, pa) + s.subrange(pa, pb) + s.subrange(pb, pc)
        + s.subrange(pc, pd) + s.subrange(pd, pe) + s.subrange(pe, pf) + s.subrange(pf, pg)
        + s.subrange(pg, ph) + s.subrange(ph, pi));
    assert(s.subrange(pos, pi) =~= ser_model(m));
}

/// Reads one whole document, with its keys in the canonical order; what it
/// consumed is exactly its canonical form.
#[verifier::rlimit(100)]
fn parse_model(s: &str, pos: usize) -> (r: Option<(CircuitModel, usize)>)
    requires
        pos <= s@.len(),
    ensures
        r matches Some(t) ==> pos < t.1 <= s@.len() && s@.subrange(pos as int, t.1 as int)
            == ser_model(t.0),
    decreases s@.len() - pos, 2int,
{
    proof {
        reveal_strlit("{\"inputs\":[");
        reveal_strlit(",\"outputs\":[");
        reveal_strlit(",\"components\":[");
        reveal_strlit(",\"value_list_len\":");
        reveal_strlit("],\"outputs\":[");
        reveal_strlit("],\"components\":[");
        reveal_strlit("],\"value_list_len\":");
        reveal_strlit("}");
        reveal_strlit("]");
        reveal_strlit(",");
    }
    let pa = match expect_lit(s, pos, "{\"inputs\":[") {
        None => {
            return None;
        },
        Some(q) => q,
    };
    let mut inputs: Vec<Input> = Vec::new();
    let mut p = pa;
    match expect_lit(s, p, "]") {
        Some(q) => {
            p = q;
        },
        None => {
            let mut done = false;
            while !done
                invariant
                    pa <= p <= s@.len(),
                    !done && inputs@.len() == 0 ==> p == pa,
                    !done && inputs@.len() > 0 ==> s@.subrange(pa as int, p as int)
                        == ser_input_list(inputs@, inputs@.len() as int) + ","@,
                    done ==> pa < p && s@.subrange(pa as int, p as int) == ser_input_list(
                        inputs@,
                        inputs@.len() as int,
                    ) + "]"@,
                decreases s@.len() - p + (if done { 0int } else { 1int }),
            {
                let ghost items0 = inputs@;
                let ghost q0 = p as int;
                let (item, q1) = match parse_input(s, p) {
                    None => {
                        return None;
                    },
                    Some(t) => t,
                };
                inputs.push(item);
                proof {
                    lemma_ser_input_list_push(items0, item, items0.len() as int);
                    assert(s@.subrange(pa as int, q1 as int) =~= s@.subrange(pa as int, q0)
                        + s@.subrange(q0, q1 as int));
                    assert(s@.subrange(pa as int, q1 as int) =~= ser_input_list(
                        inputs@,
                        inputs@.len() as int,
                    ));
                }
                p = q1;
                let ghost q2 = p as int;
                match expect_lit(s, p, "]") {
                    Some(q3) => {
                        proof {
                            assert(s@.subrange(pa as int, q3 as int) =~= s@.subrange(
                                pa as int,
                                q2,
                            ) + s@.subrange(q2, q3 as int));
                        }
                        p = q3;
                        done = true;
                    },
                    None => {
                        match expect_lit(s, p, ",") {
                            Some(q3) => {
                                proof {
                                    assert(s@.subrange(pa as int, q3 as int) =~= s@.subrange(
                                        pa as int,
                                        q2,
                                    ) + s@.subrange(q2, q3 as int));
                                }
                                p = q3;
                            },
                            None => {
                                return None;
                            },
                        }
                    },
                }
            }
        },
    }
    proof {
        assert(s@.subrange(pa as int, p as int) =~= ser_input_list(inputs@, inputs@.len() as int)
            + "]"@);
    }
    let pb = p;
    let pc = match expect_lit(s, pb, ",\"outputs\":[") {
        None => {
            return None;
        },
        Some(q) => q,
    };
    let mut outputs: Vec<Output> = Vec::new();
    let mut p = pc;
    match expect_lit(s, p, "]") {
        Some(q) => {
            p = q;
        },
        None => {
            let mut done = false;
            while !done
                invariant
                    pc <= p <= s@.len(),
                    !done && outputs@.len() == 0 ==> p == pc,
                    !done && outputs@.len() > 0 ==> s@.subrange(pc as int, p as int)
                        == ser_output_list(outputs@, outputs@.len() as int) + ","@,
                    done ==> pc < p && s@.subrange(pc as int, p as int) == ser_output_list(
                        outputs@,
                        outputs@.len() as int,
                    ) + "]"@,
                decreases s@.len() - p + (if done { 0int } else { 1int }),
            {
                let ghost items0 = outputs@;
                let ghost q0 = p as int;
                let (item, q1) = match parse_output(s, p) {
                    None => {
                        return None;
                    },
                    Some(t) => t,
                };
                outputs.push(item);
                proof {
                    lemma_ser_output_list_push(items0, item, items0.len() as int);
                    assert(s@.subrange(pc as int, q1 as int) =~= s@.subrange(pc as int, q0)
                        + s@.subrange(q0, q1 as int));
                    assert(s@.subrange(pc as int, q1 as int) =~= ser_output_list(
                        outputs@,
                        outputs@.len() as int,
                    ));
                }
                p = q1;
                let ghost q2 = p as int;
                match expect_lit(s, p, "]") {
                    Some(q3) => {
                        proof {
                            assert(s@.subrange(pc as int, q3 as int) =~= s@.subrange(
                                pc as int,
                                q2,
                            ) + s@.subrange(q2, q3 as int));
                        }
                        p = q3;
                        done = true;
                    },
                    None => {
                        match expect_lit(s, p, ",") {
                            Some(q3) => {
                                proof {
                                    assert(s@.subrange(pc as int, q3 as int) =~= s@.subrange(
                                        pc as int,
                                        q2,
                                    ) + s@.subrange(q2, q3 as int));
                                }
                                p = q3;
                            },
                            None => {
                                return None;
                            },
                        }
                    },
                }
            }
        },
    }
    proof {
        assert(s@.subrange(pc as int, p as int) =~= ser_output_list(
            outputs@,
            outputs@.len() as int,
        ) + "]"@);
    }
    let pd = p;
    let pe = match expect_lit(s, pd, ",\"components\":[") {
        None => {
            return None;
        },
        Some(q) => q,
    };
    let mut components: Vec<Component> = Vec::new();
    let mut p = pe;
    match expect_lit(s, p, "]") {
        Some(q) => {
            p = q;
        },
        None => {
            let mut done = false;
            while !done
                invariant
                    pos < pe <= p <= s@.len(),
                    !done && components@.len() == 0 ==> p == pe,
                    !done && components@.len() > 0 ==> s@.subrange(pe as int, p as int)
                        == ser_component_list(components@, components@.len() as int) + ","@,
                    done ==> pe < p && s@.subrange(pe as int, p as int) == ser_component_list(
                        components@,
                        components@.len() as int,
                    ) + "]"@,
                decreases s@.len() - p + (if done { 0int } else { 1int }),
            {
                let ghost items0 = components@;
                let ghost q0 = p as int;
                let (item, q1) = match parse_component(s, p) {
                    None => {
                        return None;
                    },
                    Some(t) => t,
                };
                components.push(item);
                proof {
                    lemma_ser_component_list_push(items0, item, items0.len() as int);
                    assert(s@.subrange(pe as int, q1 as int) =~= s@.subrange(pe as int, q0)
                        + s@.subrange(q0, q1 as int));
                    assert(s@.subrange(pe as int, q1 as int) =~= ser_component_list(
                        components@,
                        components@.len() as int,
                    ));
                }
                p = q1;
                let ghost q2 = p as int;
                match expect_lit(s, p, "]") {
                    Some(q3) => {
                        proof {
                            assert(s@.subrange(pe as int, q3 as int) =~= s@.subrange(
                                pe as int,
                                q2,
                            ) + s@.subrange(q2, q3 as int));
                        }
                        p = q3;
                        done = true;
                    },
                    None => {
                        match expect_lit(s, p, ",") {
                            Some(q3) => {
                                proof {
                                    assert(s@.subrange(pe as int, q3 as int) =~= s@.subrange(
                                        pe as int,
                                        q2,
                                    ) + s@.subrange(q2, q3 as int));
                                }
                                p = q3;
                            },
                            None => {
                                return None;
                            },
                        }
                    },
                }
            }
        },
    }
    proof {
        assert(s@.subrange(pe as int, p as int) =~= ser_component_list(
            components@,
            components@.len() as int,
        ) + "]"@);
    }
    let pf = p;
    let pg = match expect_lit(s, pf, ",\"value_list_len\":") {
        None => {
            return None;
        },
        Some(q) => q,
    };
    let (value_list_len, ph) = match parse_usize(s, pg) {
        None => {
            return None;
        },
        Some(t) => t,
    };
    let pi = match expect_lit(s, ph, "}") {
        None => {
            return None;
        },
        Some(q) => q,
    };
    let m = CircuitModel { inputs, outputs, components, value_list_len };
    proof {
        lemma_model_assembly(
            s@,
            pos as int,
            pa as int,
            pb as int,
            pc as int,
            pd as int,
            pe as int,
            pf as int,
            pg as int,
            ph as int,
            pi as int,
            m,
        );
    }
    Some((m, pi))
}

/// Equal concatenations with equally long heads have equal heads and tails.
proof fn lemma_cancel(a: Seq<char>, b: Seq<char>, c: Seq<char>, d: Seq<char>)
    requires
        a + b == c + d,
        a.len() == c.len(),
    ensures
        a == c,
        b == d,
{
    assert(a =~= c) by {
        assert forall|i: int| 0 <= i < a.len() implies a[i] == c[i] by {
            assert((a + b)[i] == a[i]);
            assert((c + d)[i] == c[i]);
        }
    }
    assert((a + b).len() == a.len() + b.len());
    assert((c + d).len() == c.len() + d.len());
    assert((a + b).len() == (c + d).len());
    assert(b.len() == d.len());
    assert(b =~= d) by {
        assert forall|i: int| 0 <= i < b.len() implies b[i] == d[i] by {
            assert((a + b)[a.len() + i] == b[i]);
            assert((c + d)[c.len() + i] == d[i]);
        }
    }
}

/// A canonical number is unambiguous: where two numbers followed by
/// non-digits (or by nothing) read as the same text, they are the same
/// number with the same remainder.
proof fn lemma_usize_unambiguous(x: nat, y: nat, ra: Seq<char>, rb: Seq<char>)
    requires
        ser_usize(x) + ra == ser_usize(y) + rb,
        ra.len() > 0 ==> !is_digit_char(ra[0]),
        rb.len() > 0 ==> !is_digit_char(rb[0]),
    ensures
        x == y,
        ra == rb,
{
    lemma_ser_usize_is_digits(x);
    lemma_ser_usize_is_digits(y);
    let k = ser_usize(x).len() as int;
    let kk = ser_usize(y).len() as int;
    if k < kk {
        assert((ser_usize(x) + ra)[k] == ra[0]);
        assert((ser_usize(y) + rb)[k] == ser_usize(y)[k]);
        assert(is_digit_char(ra[0]));
        assert(false);
    }
    if k > kk {
        assert((ser_usize(y) + rb)[kk] == rb[0]);
        assert((ser_usize(x) + ra)[kk] == ser_usize(x)[kk]);
        assert(is_digit_char(rb[0]));
        assert(false);
    }
    lemma_cancel(ser_usize(x), ra, ser_usize(y), rb);
    lemma_digits_val_ser(x);
    lemma_digits_val_ser(y);
}

/// A canonical input or output object is unambiguous: its closing brace
/// delimits the single number it carries.
proof fn lemma_binding_unambiguous(x: nat, y: nat, ra: Seq<char>, rb: Seq<char>)
    requires
        ("{\"value_index\":"@ + ser_usize(x) + "}"@) + ra == ("{\"value_index\":"@ + ser_usize(y)
            + "}"@) + rb,
    ensures
        x == y,
        ra == rb,
{
    reveal_strlit("{\"value_index\":");
    reveal_strlit("}");
    let la = "{\"value_index\":"@;
    assert(la + (ser_usize(x) + ("}"@ + ra)) =~= ("{\"value_index\":"@ + ser_usize(x) + "}"@)
        + ra);
    assert(la + (ser_usize(y) + ("}"@ + rb)) =~= ("{\"value_index\":"@ + ser_usize(y) + "}"@)
        + rb);
    lemma_cancel(la, ser_usize(x) + ("}"@ + ra), la, ser_usize(y) + ("}"@ + rb));
    assert(("}"@ + ra)[0] == '}');
    assert(("}"@ + rb)[0] == '}');
    lemma_usize_unambiguous(x, y, "}"@ + ra, "}"@ + rb);
    lemma_cancel("}"@, ra, "}"@, rb);
}

/// Splitting a joined number list at its first entry.
proof fn lemma_ser_usize_list_front(v: Seq<usize>, n: int)
    requires
        2 <= n <= v.len(),
    ensures
        ser_usize_list(v, n) == ser_usize(v[0] as nat) + (","@ + ser_usize_list(
            v.subrange(1, v.len() as int),
            n - 1,
        )),
    decreases n,
{
    let w = v.subrange(1, v.len() as int);
    if n == 2 {
        assert(w[0] == v[1]);
        assert(ser_usize_list(v, 2) == ser_usize_list(v, 1) + ","@ + ser_usize(v[1] as nat));
        assert(ser_usize_list(v, 1) == ser_usize(v[0] as nat));
        assert(ser_usize_list(w, 1) == ser_usize(w[0] as nat));
        assert(ser_usize_list(v, 2) =~= ser_usize(v[0] as nat) + (","@ + ser_usize_list(w, 1)));
    } else {
        lemma_ser_usize_list_front(v, n - 1);
        assert(w[n - 2] == v[n - 1]);
        assert(ser_usize_list(v, n) == ser_usize_list(v, n - 1) + ","@ + ser_usize(
            v[n - 1] as nat,
        ));
        assert(ser_usize_list(w, n - 1) == ser_usize_list(w, n - 2) + ","@ + ser_usize(
            w[n - 2] as nat,
        ));
        assert(ser_usize_list(v, n) =~= ser_usize(v[0] as nat) + (","@ + ser_usize_list(
            w,
            n - 1,
        )));
    }
}

/// A canonical number list closed by a bracket is unambiguous: the bracket
/// and the commas delimit the entries.
proof fn lemma_usize_list_unambiguous(v: Seq<usize>, w: Seq<usize>, ra: Seq<char>, rb: Seq<char>)
    requires
        (ser_usize_list(v, v.len() as int) + "]"@) + ra == (ser_usize_list(w, w.len() as int)
            + "]"@) + rb,
    ensures
        v == w,
        ra == rb,
    decreases v.len(),
{
    reveal_strlit("]");
    reveal_strlit(",");
    let a = ser_usize_list(v, v.len() as int);
    let b = ser_usize_list(w, w.len() as int);
    if v.len() == 0 && w.len() == 0 {
        lemma_cancel(a + "]"@, ra, b + "]"@, rb);
        assert(v =~= w);
    } else if v.len() == 0 {
        assert(((a + "]"@) + ra)[0] == ']');
        if w.len() == 1 {
            assert(((b + "]"@) + rb)[0] == ser_usize(w[0] as nat)[0]);
        } else {
            lemma_ser_usize_list_front(w, w.len() as int);
            assert(((b + "]"@) + rb)[0] == ser_usize(w[0] as nat)[0]);
        }
        lemma_ser_usize_is_digits(w[0] as nat);
        assert(false);
    } else if w.len() == 0 {
        assert(((b + "]"@) + rb)[0] == ']');
        if v.len() == 1 {
            assert(((a + "]"@) + ra)[0] == ser_usize(v[0] as nat)[0]);
        } else {
            lemma_ser_usize_list_front(v, v.len() as int);
            assert(((a + "]"@) + ra)[0] == ser_usize(v[0] as nat)[0]);
        }
        lemma_ser_usize_is_digits(v[0] as nat);
        assert(false);
    } else {
        let vt = v.subrange(1, v.len() as int);
        let wt = w.subrange(1, w.len() as int);
        let ta: Seq<char> = if v.len() == 1 {
            "]"@ + ra
        } else {
            ","@ + ((ser_usize_list(vt, vt.len() as int) + "]"@) + ra)
        };
        let tb: Seq<char> = if w.len() == 1 {
            "]"@ + rb
        } else {
            ","@ + ((ser_usize_list(wt, wt.len() as int) + "]"@) + rb)
        };
        if v.len() == 1 {
            assert((a + "]"@) + ra =~= ser_usize(v[0] as nat) + ta);
        } else {
            lemma_ser_usize_list_front(v, v.len() as int);
            assert((a + "]"@) + ra =~= ser_usize(v[0] as nat) + ta);
        }
        if w.len() == 1 {
            assert((b + "]"@) + rb =~= ser_usize(w[0] as nat) + tb);
        } else {
            lemma_ser_usize_list_front(w, w.len() as int);
            assert((b + "]"@) + rb =~= ser_usize(w[0] as nat) + tb);
        }
        assert(ta[0] == if v.len() == 1 { ']' } else { ',' });
        assert(tb[0] == if w.len() == 1 { ']' } else { ',' });
        lemma_usize_unambiguous(v[0] as nat, w[0] as nat, ta, tb);
        if v.len() == 1 {
            assert(w.len() == 1);
            lemma_cancel("]"@, ra, "]"@, rb);
            assert(v =~= w);
        } else {
            assert(w.len() != 1);
            lemma_cancel(
                ","@,
                (ser_usize_list(vt, vt.len() as int) + "]"@) + ra,
                ","@,
                (ser_usize_list(wt, wt.len() as int) + "]"@) + rb,
            );
            lemma_usize_list_unambiguous(vt, wt, ra, rb);
            assert(v =~= w) by {
                assert forall|i: int| 0 <= i < v.len() implies v[i] == w[i] by {
                    if i > 0 {
                        assert(vt[i - 1] == v[i]);
                        assert(wt[i - 1] == w[i]);
                    }
                }
            }
        }
    }
}

/// Splitting a joined input list at its first entry.
proof fn lemma_ser_input_list_front(v: Seq<Input>, n: int)
    requires
        2 <= n <= v.len(),
    ensures
        ser_input_list(v, n) == ser_input(v[0]) + (","@ + ser_input_list(
            v.subrange(1, v.len() as int),
            n - 1,
        )),
    decreases n,
{
    let w = v.subrange(1, v.len() as int);
    if n == 2 {
        assert(w[0] == v[1]);
        assert(ser_input_list(v, 2) == ser_input_list(v, 1) + ","@ + ser_input(v[1]));
        assert(ser_input_list(v, 1) == ser_input(v[0]));
        assert(ser_input_list(w, 1) == ser_input(w[0]));
        assert(ser_input_list(v, 2) =~= ser_input(v[0]) + (","@ + ser_input_list(w, 1)));
    } else {
        lemma_ser_input_list_front(v, n - 1);
        assert(w[n - 2] == v[n - 1]);
        assert(ser_input_list(v, n) == ser_input_list(v, n - 1) + ","@ + ser_input(v[n - 1]));
        assert(ser_input_list(w, n - 1) == ser_input_list(w, n - 2) + ","@ + ser_input(w[n - 2]));
        assert(ser_input_list(v, n) =~= ser_input(v[0]) + (","@ + ser_input_list(w, n - 1)));
    }
}

/// A canonical input list closed by a bracket is unambiguous.
proof fn lemma_input_list_unambiguous(v: Seq<Input>, w: Seq<Input>, ra: Seq<char>, rb: Seq<char>)
    requires
        (ser_input_list(v, v.len() as int) + "]"@) + ra == (ser_input_list(w, w.len() as int) + "]"@)
            + rb,
    ensures
        v == w,
        ra == rb,
    decreases v.len(),
{
    reveal_strlit("]");
    reveal_strlit(",");
    reveal_strlit("{\"value_index\":");
    let a = ser_input_list(v, v.len() as int);
    let b = ser_input_list(w, w.len() as int);
    if v.len() == 0 && w.len() == 0 {
        lemma_cancel(a + "]"@, ra, b + "]"@, rb);
        assert(v =~= w);
    } else if v.len() == 0 {
        assert(((a + "]"@) + ra)[0] == ']');
        if w.len() == 1 {
            assert(((b + "]"@) + rb)[0] == ser_input(w[0])[0]);
        } else {
            lemma_ser_input_list_front(w, w.len() as int);
            assert(((b + "]"@) + rb)[0] == ser_input(w[0])[0]);
        }
        assert(ser_input(w[0])[0] == "{\"value_index\":"@[0]);
        assert(false);
    } else if w.len() == 0 {
        assert(((b + "]"@) + rb)[0] == ']');
        if v.len() == 1 {
            assert(((a + "]"@) + ra)[0] == ser_input(v[0])[0]);
        } else {
            lemma_ser_input_list_front(v, v.len() as int);
            assert(((a + "]"@) + ra)[0] == ser_input(v[0])[0]);
        }
        assert(ser_input(v[0])[0] == "{\"value_index\":"@[0]);
        assert(false);
    } else {
        let vt = v.subrange(1, v.len() as int);
        let wt = w.subrange(1, w.len() as int);
        let ta: Seq<char> = if v.len() == 1 {
            "]"@ + ra
        } else {
            ","@ + ((ser_input_list(vt, vt.len() as int) + "]"@) + ra)
        };
        let tb: Seq<char> = if w.len() == 1 {
            "]"@ + rb
        } else {
            ","@ + ((ser_input_list(wt, wt.len() as int) + "]"@) + rb)
        };
        if v.len() == 1 {
            assert((a + "]"@) + ra =~= ser_input(v[0]) + ta);
        } else {
            lemma_ser_input_list_front(v, v.len() as int);
            assert((a + "]"@) + ra =~= ser_input(v[0]) + ta);
        }
        if w.len() == 1 {
            assert((b + "]"@) + rb =~= ser_input(w[0]) + tb);
        } else {
            lemma_ser_input_list_front(w, w.len() as int);
            assert((b + "]"@) + rb =~= ser_input(w[0]) + tb);
        }
        assert(ser_input(v[0]) + ta =~= ("{\"value_index\":"@ + ser_usize(v[0].value_index as nat)
            + "}"@) + ta);
        assert(ser_input(w[0]) + tb =~= ("{\"value_index\":"@ + ser_usize(w[0].value_index as nat)
            + "}"@) + tb);
        lemma_binding_unambiguous(v[0].value_index as nat, w[0].value_index as nat, ta, tb);
        assert(v[0] == w[0]);
        assert(ta[0] == if v.len() == 1 { ']' } else { ',' });
        assert(tb[0] == if w.len() == 1 { ']' } else { ',' });
        if v.len() == 1 {
            assert(w.len() == 1);
            lemma_cancel("]"@, ra, "]"@, rb);
            assert(v =~= w);
        } else {
            assert(w.len() != 1);
            lemma_cancel(
                ","@,
                (ser_input_list(vt, vt.len() as int) + "]"@) + ra,
                ","@,
                (ser_input_list(wt, wt.len() as int) + "]"@) + rb,
            );
            lemma_input_list_unambiguous(vt, wt, ra, rb);
            assert(v =~= w) by {
                assert forall|i: int| 0 <= i < v.len() implies v[i] == w[i] by {
                    if i > 0 {
                        assert(vt[i - 1] == v[i]);
                        assert(wt[i - 1] == w[i]);
                    }
                }
            }
        }
    }
}

/// Splitting a joined output list at its first entry.
proof fn lemma_ser_output_list_front(v: Seq<Output>, n: int)
    requires
        2 <= n <= v.len(),
    ensures
        ser_output_list(v, n) == ser_output(v[0]) + (","@ + ser_output_list(
            v.subrange(1, v.len() as int),
            n - 1,
        )),
    decreases n,
{
    let w = v.subrange(1, v.len() as int);
    if n == 2 {
        assert(w[0] == v[1]);
        assert(ser_output_list(v, 2) == ser_output_list(v, 1) + ","@ + ser_output(v[1]));
        assert(ser_output_list(v, 1) == ser_output(v[0]));
        assert(ser_output_list(w, 1) == ser_output(w[0]));
        assert(ser_output_list(v, 2) =~= ser_output(v[0]) + (","@ + ser_output_list(w, 1)));
    } else {
        lemma_ser_output_list_front(v, n - 1);
        assert(w[n - 2] == v[n - 1]);
        assert(ser_output_list(v, n) == ser_output_list(v, n - 1) + ","@ + ser_output(v[n - 1]));
        assert(ser_output_list(w, n - 1) == ser_output_list(w, n - 2) + ","@ + ser_output(w[n - 2]));
        assert(ser_output_list(v, n) =~= ser_output(v[0]) + (","@ + ser_output_list(w, n - 1)));
    }
}

/// A canonical output list closed by a bracket is unambiguous.
proof fn lemma_output_list_unambiguous(v: Seq<Output>, w: Seq<Output>, ra: Seq<char>, rb: Seq<char>)
    requires
        (ser_output_list(v, v.len() as int) + "]"@) + ra == (ser_output_list(w, w.len() as int) + "]"@)
            + rb,
    ensures
        v == w,
        ra == rb,
    decreases v.len(),
{
    reveal_strlit("]");
    reveal_strlit(",");
    reveal_strlit("{\"value_index\":");
    let a = ser_output_list(v, v.len() as int);
    let b = ser_output_list(w, w.len() as int);
    if v.len() == 0 && w.len() == 0 {
        lemma_cancel(a + "]"@, ra, b + "]"@, rb);
        assert(v =~= w);
    } else if v.len() == 0 {
        assert(((a + "]"@) + ra)[0] == ']');
        if w.len() == 1 {
            assert(((b + "]"@) + rb)[0] == ser_output(w[0])[0]);
        } else {
            lemma_ser_output_list_front(w, w.len() as int);
            assert(((b + "]"@) + rb)[0] == ser_output(w[0])[0]);
        }
        assert(ser_output(w[0])[0] == "{\"value_index\":"@[0]);
        assert(false);
    } else if w.len() == 0 {
        assert(((b + "]"@) + rb)[0] == ']');
        if v.len() == 1 {
            assert(((a + "]"@) + ra)[0] == ser_output(v[0])[0]);
        } else {
            lemma_ser_output_list_front(v, v.len() as int);
            assert(((a + "]"@) + ra)[0] == ser_output(v[0])[0]);
        }
        assert(ser_output(v[0])[0] == "{\"value_index\":"@[0]);
        assert(false);
    } else {
        let vt = v.subrange(1, v.len() as int);
        let wt = w.subrange(1, w.len() as int);
        let ta: Seq<char> = if v.len() == 1 {
            "]"@ + ra
        } else {
            ","@ + ((ser_output_list(vt, vt.len() as int) + "]"@) + ra)
        };
        let tb: Seq<char> = if w.len() == 1 {
            "]"@ + rb
        } else {
            ","@ + ((ser_output_list(wt, wt.len() as int) + "]"@) + rb)
        };
        if v.len() == 1 {
            assert((a + "]"@) + ra =~= ser_output(v[0]) + ta);
        } else {
            lemma_ser_output_list_front(v, v.len() as int);
            assert((a + "]"@) + ra =~= ser_output(v[0]) + ta);
        }
        if w.len() == 1 {
            assert((b + "]"@) + rb =~= ser_output(w[0]) + tb);
        } else {
            lemma_ser_output_list_front(w, w.len() as int);
            assert((b + "]"@) + rb =~= ser_output(w[0]) + tb);
        }
        assert(ser_output(v[0]) + ta =~= ("{\"value_index\":"@ + ser_usize(v[0].value_index as nat)
            + "}"@) + ta);
        assert(ser_output(w[0]) + tb =~= ("{\"value_index\":"@ + ser_usize(w[0].value_index as nat)
            + "}"@) + tb);
        lemma_binding_unambiguous(v[0].value_index as nat, w[0].value_index as nat, ta, tb);
        assert(v[0] == w[0]);
        assert(ta[0] == if v.len() == 1 { ']' } else { ',' });
        assert(tb[0] == if w.len() == 1 { ']' } else { ',' });
        if v.len() == 1 {
            assert(w.len() == 1);
            lemma_cancel("]"@, ra, "]"@, rb);
            assert(v =~= w);
        } else {
            assert(w.len() != 1);
            lemma_cancel(
                ","@,
                (ser_output_list(vt, vt.len() as int) + "]"@) + ra,
                ","@,
                (ser_output_list(wt, wt.len() as int) + "]"@) + rb,
            );
            lemma_output_list_unambiguous(vt, wt, ra, rb);
            assert(v =~= w) by {
                assert forall|i: int| 0 <= i < v.len() implies v[i] == w[i] by {
                    if i > 0 {
                        assert(vt[i - 1] == v[i]);
                        assert(wt[i - 1] == w[i]);
                    }
                }
            }
        }
    }
}

/// A canonical function is unambiguous: the variant names and the braces of
/// an embedded document delimit it.
proof fn lemma_function_unambiguous(f: Function, g: Function, ra: Seq<char>, rb: Seq<char>)
    requires
        ser_function(f) + ra == ser_function(g) + rb,
    ensures
        eq_function(f, g),
        ra == rb,
    decreases f, 0int,
{
    reveal_strlit("\"And\"");
    reveal_strlit("\"Or\"");
    reveal_strlit("\"Not\"");
    reveal_strlit("\"Nand\"");
    reveal_strlit("\"Nor\"");
    reveal_strlit("\"FlipFlopRS\"");
    reveal_strlit("\"FlipFlopJK\"");
    reveal_strlit("\"FlipFlopD\"");
    reveal_strlit("\"FlipFlopT\"");
    reveal_strlit("{\"Circuit\":");
    reveal_strlit("}");
    let u = ser_function(f);
    let t = ser_function(g);
    if f.kind() == g.kind() {
        match (f, g) {
            (Function::Circuit(c), Function::Circuit(d)) => {
                assert(u + ra =~= "{\"Circuit\":"@ + (ser_model(c) + ("}"@ + ra)));
                assert(t + rb =~= "{\"Circuit\":"@ + (ser_model(d) + ("}"@ + rb)));
                lemma_cancel(
                    "{\"Circuit\":"@,
                    ser_model(c) + ("}"@ + ra),
                    "{\"Circuit\":"@,
                    ser_model(d) + ("}"@ + rb),
                );
                lemma_model_unambiguous(c, d, "}"@ + ra, "}"@ + rb);
                lemma_cancel("}"@, ra, "}"@, rb);
            },
            _ => {
                assert(u == t);
                lemma_cancel(u, ra, t, rb);
            },
        }
    } else {
        assert((u + ra).len() == (t + rb).len());
        assert((u + ra).len() == u.len() + ra.len());
        assert((t + rb).len() == t.len() + rb.len());
        assert forall|i: int| 0 <= i < u.len() && i < t.len() implies u[i] == t[i] by {
            assert((u + ra)[i] == u[i]);
            assert((t + rb)[i] == t[i]);
        }
        assert(u.len() >= 4);
        assert(t.len() >= 4);
        assert(0 < u.len() && 0 < t.len() ==> u[0] == t[0]);
        assert(1 < u.len() && 1 < t.len() ==> u[1] == t[1]);
        assert(2 < u.len() && 2 < t.len() ==> u[2] == t[2]);
        assert(3 < u.len() && 3 < t.len() ==> u[3] == t[3]);
        assert(4 < u.len() && 4 < t.len() ==> u[4] == t[4]);
        assert(9 < u.len() && 9 < t.len() ==> u[9] == t[9]);
        assert(false);
    }
}

/// A canonical component is unambiguous: its fixed keys, brackets and
/// closing brace delimit its lists and its function.
#[verifier::rlimit(100)]
proof fn lemma_component_unambiguous(c: Component, d: Component, ra: Seq<char>, rb: Seq<char>)
    requires
        ser_component(c) + ra == ser_component(d) + rb,
    ensures
        eq_component(c, d),
        ra == rb,
    decreases c, 2int,
{
    reveal_strlit("{\"input_value_indices\":[");
    reveal_strlit(",\"output_value_indices\":[");
    reveal_strlit(",\"owned_value_indices\":[");
    reveal_strlit(",\"function\":");
    reveal_strlit("],\"output_value_indices\":[");
    reveal_strlit("],\"owned_value_indices\":[");
    reveal_strlit("],\"function\":");
    reveal_strlit("}");
    reveal_strlit("]");
    let l1 = "{\"input_value_indices\":["@;
    let m2 = ",\"output_value_indices\":["@;
    let m3 = ",\"owned_value_indices\":["@;
    let m4 = ",\"function\":"@;
    assert("]"@ + m2 =~= "],\"output_value_indices\":["@);
    assert("]"@ + m3 =~= "],\"owned_value_indices\":["@);
    assert("]"@ + m4 =~= "],\"function\":"@);
    let a1 = ser_usize_list(c.input_value_indices@, c.input_value_indices@.len() as int);
    let a2 = ser_usize_list(c.output_value_indices@, c.output_value_indices@.len() as int);
    let a3 = ser_usize_list(c.owned_value_indices@, c.owned_value_indices@.len() as int);
    let b1 = ser_usize_list(d.input_value_indices@, d.input_value_indices@.len() as int);
    let b2 = ser_usize_list(d.output_value_indices@, d.output_value_indices@.len() as int);
    let b3 = ser_usize_list(d.owned_value_indices@, d.owned_value_indices@.len() as int);
    let fa = ser_function(c.function);
    let fb = ser_function(d.function);
    assert(ser_component(c) + ra =~= l1 + ((a1 + "]"@) + (m2 + ((a2 + "]"@) + (m3 + ((a3 + "]"@)
        + (m4 + (fa + ("}"@ + ra)))))))));
    assert(ser_component(d) + rb =~= l1 + ((b1 + "]"@) + (m2 + ((b2 + "]"@) + (m3 + ((b3 + "]"@)
        + (m4 + (fb + ("}"@ + rb)))))))));
    lemma_cancel(
        l1,
        (a1 + "]"@) + (m2 + ((a2 + "]"@) + (m3 + ((a3 + "]"@) + (m4 + (fa + ("}"@ + ra))))))),
        l1,
        (b1 + "]"@) + (m2 + ((b2 + "]"@) + (m3 + ((b3 + "]"@) + (m4 + (fb + ("}"@ + rb))))))),
    );
    lemma_usize_list_unambiguous(
        c.input_value_indices@,
        d.input_value_indices@,
        m2 + ((a2 + "]"@) + (m3 + ((a3 + "]"@) + (m4 + (fa + ("}"@ + ra)))))),
        m2 + ((b2 + "]"@) + (m3 + ((b3 + "]"@) + (m4 + (fb + ("}"@ + rb)))))),
    );
    lemma_cancel(
        m2,
        (a2 + "]"@) + (m3 + ((a3 + "]"@) + (m4 + (fa + ("}"@ + ra))))),
        m2,
        (b2 + "]"@) + (m3 + ((b3 + "]"@) + (m4 + (fb + ("}"@ + rb))))),
    );
    lemma_usize_list_unambiguous(
        c.output_value_indices@,
        d.output_value_indices@,
        m3 + ((a3 + "]"@) + (m4 + (fa + ("}"@ + ra)))),
        m3 + ((b3 + "]"@) + (m4 + (fb + ("}"@ + rb)))),
    );
    lemma_cancel(
        m3,
        (a3 + "]"@) + (m4 + (fa + ("}"@ + ra))),
        m3,
        (b3 + "]"@) + (m4 + (fb + ("}"@ + rb))),
    );
    lemma_usize_list_unambiguous(
        c.owned_value_indices@,
        d.owned_value_indices@,
        m4 + (fa + ("}"@ + ra)),
        m4 + (fb + ("}"@ + rb)),
    );
    lemma_cancel(m4, fa + ("}"@ + ra), m4, fb + ("}"@ + rb));
    lemma_function_unambiguous(c.function, d.function, "}"@ + ra, "}"@ + rb);
    lemma_cancel("}"@, ra, "}"@, rb);
}

/// Splitting a joined component list at its first entry.
proof fn lemma_ser_component_list_front(v: Seq<Component>, n: int)
    requires
        2 <= n <= v.len(),
    ensures
        ser_component_list(v, n) == ser_component(v[0]) + (","@ + ser_component_list(
            v.subrange(1, v.len() as int),
            n - 1,
        )),
    decreases n,
{
    let w = v.subrange(1, v.len() as int);
    if n == 2 {
        assert(w[0] == v[1]);
        assert(ser_component_list(v, 2) == ser_component_list(v, 1) + ","@ + ser_component(
            v[1],
        ));
        assert(ser_component_list(v, 1) == ser_component(v[0]));
        assert(ser_component_list(w, 1) == ser_component(w[0]));
        assert(ser_component_list(v, 2) =~= ser_component(v[0]) + (","@ + ser_component_list(
            w,
            1,
        )));
    } else {
        lemma_ser_component_list_front(v, n - 1);
        assert(w[n - 2] == v[n - 1]);
        assert(ser_component_list(v, n) == ser_component_list(v, n - 1) + ","@ + ser_component(
            v[n - 1],
        ));
        assert(ser_component_list(w, n - 1) == ser_component_list(w, n - 2) + ","@
            + ser_component(w[n - 2]));
        assert(ser_component_list(v, n) =~= ser_component(v[0]) + (","@ + ser_component_list(
            w,
            n - 1,
        )));
    }
}

/// A canonical component list closed by a bracket is unambiguous; the
/// entries agree structurally.
proof fn lemma_component_list_unambiguous(
    v: Seq<Component>,
    w: Seq<Component>,
    ra: Seq<char>,
    rb: Seq<char>,
)
    requires
        (ser_component_list(v, v.len() as int) + "]"@) + ra == (ser_component_list(
            w,
            w.len() as int,
        ) + "]"@) + rb,
    ensures
        v.len() == w.len(),
        forall|i: int| 0 <= i < v.len() ==> eq_component(#[trigger] v[i], w[i]),
        ra == rb,
    decreases v, 0int,
{
    reveal_strlit("]");
    reveal_strlit(",");
    reveal_strlit("{\"input_value_indices\":[");
    let a = ser_component_list(v, v.len() as int);
    let b = ser_component_list(w, w.len() as int);
    if v.len() == 0 && w.len() == 0 {
        lemma_cancel(a + "]"@, ra, b + "]"@, rb);
    } else if v.len() == 0 {
        assert(((a + "]"@) + ra)[0] == ']');
        if w.len() == 1 {
            assert(((b + "]"@) + rb)[0] == ser_component(w[0])[0]);
        } else {
            lemma_ser_component_list_front(w, w.len() as int);
            assert(((b + "]"@) + rb)[0] == ser_component(w[0])[0]);
        }
        assert(ser_component(w[0])[0] == "{\"input_value_indices\":["@[0]);
        assert(false);
    } else if w.len() == 0 {
        assert(((b + "]"@) + rb)[0] == ']');
        if v.len() == 1 {
            assert(((a + "]"@) + ra)[0] == ser_component(v[0])[0]);
        } else {
            lemma_ser_component_list_front(v, v.len() as int);
            assert(((a + "]"@) + ra)[0] == ser_component(v[0])[0]);
        }
        assert(ser_component(v[0])[0] == "{\"input_value_indices\":["@[0]);
        assert(false);
    } else {
        let vt = v.subrange(1, v.len() as int);
        let wt = w.subrange(1, w.len() as int);
        let ta: Seq<char> = if v.len() == 1 {
            "]"@ + ra
        } else {
            ","@ + ((ser_component_list(vt, vt.len() as int) + "]"@) + ra)
        };
        let tb: Seq<char> = if w.len() == 1 {
            "]"@ + rb
        } else {
            ","@ + ((ser_component_list(wt, wt.len() as int) + "]"@) + rb)
        };
        if v.len() == 1 {
            assert((a + "]"@) + ra =~= ser_component(v[0]) + ta);
        } else {
            lemma_ser_component_list_front(v, v.len() as int);
            assert((a + "]"@) + ra =~= ser_component(v[0]) + ta);
        }
        if w.len() == 1 {
            assert((b + "]"@) + rb =~= ser_component(w[0]) + tb);
        } else {
            lemma_ser_component_list_front(w, w.len() as int);
            assert((b + "]"@) + rb =~= ser_component(w[0]) + tb);
        }
        lemma_component_unambiguous(v[0], w[0], ta, tb);
        assert(ta[0] == if v.len() == 1 { ']' } else { ',' });
        assert(tb[0] == if w.len() == 1 { ']' } else { ',' });
        if v.len() == 1 {
            assert(w.len() == 1);
            lemma_cancel("]"@, ra, "]"@, rb);
        } else {
            assert(w.len() != 1);
            lemma_cancel(
                ","@,
                (ser_component_list(vt, vt.len() as int) + "]"@) + ra,
                ","@,
                (ser_component_list(wt, wt.len() as int) + "]"@) + rb,
            );
            lemma_component_list_unambiguous(vt, wt, ra, rb);
            assert forall|i: int| 0 <= i < v.len() implies eq_component(
                #[trigger] v[i],
                w[i],
            ) by {
                if i > 0 {
                    assert(vt[i - 1] == v[i]);
                    assert(wt[i - 1] == w[i]);
                    assert(eq_component(vt[i - 1], wt[i - 1]));
                }
            }
        }
    }
}

/// A document with a tail, written out as nested concatenations split at
/// every delimiter.
#[verifier::rlimit(100)]
proof fn lemma_model_flatten(a: CircuitModel, ra: Seq<char>)
    ensures
        ser_model(a) + ra == "{\"inputs\":["@ + ((ser_input_list(a.inputs@, a.inputs@.len() as int)
            + "]"@) + (",\"outputs\":["@ + ((ser_output_list(a.outputs@, a.outputs@.len() as int)
            + "]"@) + (",\"components\":["@ + ((ser_component_list(
            a.components@,
            a.components@.len() as int,
        ) + "]"@) + (",\"value_list_len\":"@ + (ser_usize(a.value_list_len as nat) + ("}"@
            + ra)))))))),
{
    reveal_strlit("{\"inputs\":[");
    reveal_strlit(",\"outputs\":[");
    reveal_strlit(",\"components\":[");
    reveal_strlit(",\"value_list_len\":");
    reveal_strlit("],\"outputs\":[");
    reveal_strlit("],\"components\":[");
    reveal_strlit("],\"value_list_len\":");
    reveal_strlit("}");
    reveal_strlit("]");
    assert("]"@ + ",\"outputs\":["@ =~= "],\"outputs\":["@);
    assert("]"@ + ",\"components\":["@ =~= "],\"components\":["@);
    assert("]"@ + ",\"value_list_len\":"@ =~= "],\"value_list_len\":"@);
    assert(ser_model(a) + ra =~= "{\"inputs\":["@ + ((ser_input_list(
        a.inputs@,
        a.inputs@.len() as int,
    ) + "]"@) + (",\"outputs\":["@ + ((ser_output_list(a.outputs@, a.outputs@.len() as int)
        + "]"@) + (",\"components\":["@ + ((ser_component_list(
        a.components@,
        a.components@.len() as int,
    ) + "]"@) + (",\"value_list_len\":"@ + (ser_usize(a.value_list_len as nat) + ("}"@
        + ra)))))))));
}

/// The back half of a canonical document — the component list, the
/// value-space length and the closing brace — is unambiguous.
proof fn lemma_model_tail_unambiguous(
    ac: Seq<Component>,
    bc: Seq<Component>,
    na: nat,
    nb: nat,
    ra: Seq<char>,
    rb: Seq<char>,
)
    requires
        (ser_component_list(ac, ac.len() as int) + "]"@) + (",\"value_list_len\":"@ + (ser_usize(
            na,
        ) + ("}"@ + ra))) == (ser_component_list(bc, bc.len() as int) + "]"@) + (
        ",\"value_list_len\":"@ + (ser_usize(nb) + ("}"@ + rb))),
    ensures
        ac.len() == bc.len(),
        forall|i: int| 0 <= i < ac.len() ==> eq_component(#[trigger] ac[i], bc[i]),
        na == nb,
        ra == rb,
    decreases ac, 1int,
{
    reveal_strlit(",\"value_list_len\":");
    reveal_strlit("}");
    lemma_component_list_unambiguous(
        ac,
        bc,
        ",\"value_list_len\":"@ + (ser_usize(na) + ("}"@ + ra)),
        ",\"value_list_len\":"@ + (ser_usize(nb) + ("}"@ + rb)),
    );
    lemma_cancel(
        ",\"value_list_len\":"@,
        ser_usize(na) + ("}"@ + ra),
        ",\"value_list_len\":"@,
        ser_usize(nb) + ("}"@ + rb),
    );
    assert(("}"@ + ra)[0] == '}');
    assert(("}"@ + rb)[0] == '}');
    lemma_usize_unambiguous(na, nb, "}"@ + ra, "}"@ + rb);
    lemma_cancel("}"@, ra, "}"@, rb);
}

/// A canonical document is unambiguous: its fixed keys and delimiters
/// determine the whole model.
#[verifier::rlimit(100)]
proof fn lemma_model_unambiguous(a: CircuitModel, b: CircuitModel, ra: Seq<char>, rb: Seq<char>)
    requires
        ser_model(a) + ra == ser_model(b) + rb,
    ensures
        eq_model(a, b),
        ra == rb,
    decreases a, 1int,
{
    let l1 = "{\"inputs\":["@;
    let m2 = ",\"outputs\":["@;
    let m3 = ",\"components\":["@;
    let a1 = ser_input_list(a.inputs@, a.inputs@.len() as int);
    let a2 = ser_output_list(a.outputs@, a.outputs@.len() as int);
    let a3 = ser_component_list(a.components@, a.components@.len() as int);
    let b1 = ser_input_list(b.inputs@, b.inputs@.len() as int);
    let b2 = ser_output_list(b.outputs@, b.outputs@.len() as int);
    let b3 = ser_component_list(b.components@, b.components@.len() as int);
    let na = ser_usize(a.value_list_len as nat);
    let nb = ser_usize(b.value_list_len as nat);
    lemma_model_flatten(a, ra);
    lemma_model_flatten(b, rb);
    lemma_cancel(
        l1,
        (a1 + "]"@) + (m2 + ((a2 + "]"@) + (m3 + ((a3 + "]"@) + (",\"value_list_len\":"@ + (na
            + ("}"@ + ra))))))),
        l1,
        (b1 + "]"@) + (m2 + ((b2 + "]"@) + (m3 + ((b3 + "]"@) + (",\"value_list_len\":"@ + (nb
            + ("}"@ + rb))))))),
    );
    lemma_input_list_unambiguous(
        a.inputs@,
        b.inputs@,
        m2 + ((a2 + "]"@) + (m3 + ((a3 + "]"@) + (",\"value_list_len\":"@ + (na + ("}"@
            + ra)))))),
        m2 + ((b2 + "]"@) + (m3 + ((b3 + "]"@) + (",\"value_list_len\":"@ + (nb + ("}"@
            + rb)))))),
    );
    lemma_cancel(
        m2,
        (a2 + "]"@) + (m3 + ((a3 + "]"@) + (",\"value_list_len\":"@ + (na + ("}"@ + ra))))),
        m2,
        (b2 + "]"@) + (m3 + ((b3 + "]"@) + (",\"value_list_len\":"@ + (nb + ("}"@ + rb))))),
    );
    lemma_output_list_unambiguous(
        a.outputs@,
        b.outputs@,
        m3 + ((a3 + "]"@) + (",\"value_list_len\":"@ + (na + ("}"@ + ra)))),
        m3 + ((b3 + "]"@) + (",\"value_list_len\":"@ + (nb + ("}"@ + rb)))),
    );
    lemma_cancel(
        m3,
        (a3 + "]"@) + (",\"value_list_len\":"@ + (na + ("}"@ + ra))),
        m3,
        (b3 + "]"@) + (",\"value_list_len\":"@ + (nb + ("}"@ + rb))),
    );
    lemma_model_tail_unambiguous(
        a.components@,
        b.components@,
        a.value_list_len as nat,
        b.value_list_len as nat,
        ra,
        rb,
    );
}

/// The canonical document determines the model: two models that serialize
/// to the same text are structurally equal, so deserializing a document
/// yields the model it was written from, with identical inputs, outputs,
/// components and value-space length.
pub proof fn lemma_ser_model_injective(a: CircuitModel, b: CircuitModel)
    requires
        ser_model(a) == ser_model(b),
    ensures
        eq_model(a, b),
{
    assert(ser_model(a) + Seq::<char>::empty() =~= ser_model(b) + Seq::<char>::empty());
    lemma_model_unambiguous(a, b, Seq::empty(), Seq::empty());
}

/// Decides a function's well-formedness.
fn check_function(f: &Function) -> (r: bool)
    ensures
        r == f.wf(),
    decreases f, 0int,
{
    match f {
        Function::Circuit(c) => check_model(c),
        _ => true,
    }
}

/// Decides a component's well-formedness against a value space of length
/// `len`.
fn check_component(c: &Component, len: usize) -> (r: bool)
    ensures
        r == c.wf(len as nat),
    decreases c, 1int,
{
    proof {
        assert(decreases_to!(c, 1int => c.function, 0int));
    }
    let arity_ok = c.input_value_indices.len() == c.function.input_value_count();
    let outs_ok = c.output_value_indices.len() == c.function.output_value_count();
    let owned_ok = c.owned_value_indices.len() == c.function.owned_value_count();
    arity_ok && outs_ok && owned_ok && check_function(&c.function) && all_below(
        &c.input_value_indices,
        len,
    ) && all_below(&c.output_value_indices, len) && all_below(&c.owned_value_indices, len)
}

/// Decides a model's well-formedness: every binding in range and every
/// component internally consistent, recursively through embedded circuits.
fn check_model(m: &CircuitModel) -> (r: bool)
    ensures
        r == m.wf(),
    decreases m, 2int,
{
    let ni = m.inputs.len();
    let mut i: usize = 0;
    while i < ni
        invariant
            i <= ni,
            ni == m.inputs@.len(),
            forall|k: int|
                0 <= k < i ==> (#[trigger] m.inputs@[k].value_index as nat)
                    < m.value_list_len as nat,
        decreases ni - i,
    {
        if m.inputs[i].value_index >= m.value_list_len {
            return false;
        }
        i = i + 1;
    }
    let no = m.outputs.len();
    let mut i2: usize = 0;
    while i2 < no
        invariant
            i2 <= no,
            no == m.outputs@.len(),
            forall|k: int|
                0 <= k < i2 ==> (#[trigger] m.outputs@[k].value_index as nat)
                    < m.value_list_len as nat,
        decreases no - i2,
    {
        if m.outputs[i2].value_index >= m.value_list_len {
            return false;
        }
        i2 = i2 + 1;
    }
    let nc = m.components.len();
    let mut i3: usize = 0;
    while i3 < nc
        invariant
            i3 <= nc,
            nc == m.components@.len(),
            ni == m.inputs@.len(),
            no == m.outputs@.len(),
            forall|k: int|
                0 <= k < ni ==> (#[trigger] m.inputs@[k].value_index as nat)
                    < m.value_list_len as nat,
            forall|k: int|
                0 <= k < no ==> (#[trigger] m.outputs@[k].value_index as nat)
                    < m.value_list_len as nat,
            forall|k: int|
                0 <= k < i3 ==> (#[trigger] m.components@[k]).wf(m.value_list_len as nat),
        decreases nc - i3,
    {
        proof {
            assert(decreases_to!(m, 2int => m.components@[i3 as int], 1int));
        }
        if !check_component(&m.components[i3], m.value_list_len) {
            return false;
        }
        i3 = i3 + 1;
    }
    true
}

/// Reads a whole canonical document into a model. The accepted language is
/// exactly the canonical serialization [`ser_model`]: the fixed key order,
/// no whitespace, numbers without leading zeros. A model is returned only
/// when the whole text is such a serialization and the result passes the
/// full well-formedness check; any other text — including a differently
/// formatted rendering of the same shape — yields `None`, never a crash.
/// Together with [`to_json`], whatever loads is exactly what the returned
/// model writes back.
pub fn from_json(s: &str) -> (r: Option<CircuitModel>)
    ensures
        r matches Some(m) ==> m.wf() && s@ == ser_model(m) && (forall|m2: CircuitModel| s@
            == ser_model(m2) ==> eq_model(m2, m)),
{
    let len = s.unicode_len();
    match parse_model(s, 0) {
        None => None,
        Some((m, p)) => {
            if p == len && check_model(&m) {
                proof {
                    assert(s@.subrange(0int, len as int) =~= s@);
                    assert forall|m2: CircuitModel| s@ == ser_model(m2) implies eq_model(
                        m2,
                        m,
                    ) by {
                        lemma_ser_model_injective(m2, m);
                    }
                }
                Some(m)
            } else {
                None
            }
        },
    }
}

/// The bundled example circuit: two inputs feeding one `And` component
/// whose output slot is tapped by one output, over three value slots.
pub fn example_model() -> (r: CircuitModel)
    ensures
        r.wf(),
        r.value_list_len == 3,
        r.inputs@.len() == 2,
        r.inputs@[0].value_index == 0,
        r.inputs@[1].value_index == 1,
        r.outputs@ =~= seq![Output { value_index: 2usize }],
        r.components@.len() == 1,
        r.components@[0].function == Function::And,
        r.components@[0].input_value_indices@ =~= seq![0usize, 1usize],
        r.components@[0].output_value_indices@ =~= seq![2usize],
        r.components@[0].owned_value_indices@ =~= Seq::<usize>::empty(),
{
    let mut m = CircuitModel::new();
    m.add_input();
    m.add_input();
    let mut gate_inputs: Vec<usize> = Vec::new();
    gate_inputs.push(0);
    gate_inputs.push(1);
    m.add_component(Function::And, gate_inputs);
    m.add_output(2);
    m
}

} // verus!
