//! Laws that tie the predefined constants to the numbers they name.
use vstd::prelude::*;
use crate::operator::{OperatorView, constant_named};
use crate::value::ValueView;

verus! {

/// The digits of `s[0..k)` read as one whole number, the decimal point
/// skipped.
pub open spec fn digits_upto(s: Seq<char>, k: int) -> int
    decreases k,
{
    if k <= 0 {
        0
    } else if s[k - 1] == '.' {
        digits_upto(s, k - 1)
    } else {
        digits_upto(s, k - 1) * 10 + (s[k - 1] as int - '0' as int)
    }
}

/// The digits of a decimal text read as one whole number.
pub open spec fn digits_of(s: Seq<char>) -> int {
    digits_upto(s, s.len() as int)
}

/// The number of digits after the decimal point of `s[0..k)`; 0 without a
/// point.
pub open spec fn fraction_upto(s: Seq<char>, k: int) -> nat
    decreases k,
{
    if k <= 0 {
        0
    } else if s[k - 1] == '.' {
        0
    } else if s.take(k - 1).contains('.') {
        fraction_upto(s, k - 1) + 1
    } else {
        0
    }
}

/// Ten to the power `n`.
pub open spec fn pow10(n: nat) -> int
    decreases n,
{
    if n == 0 {
        1
    } else {
        10 * pow10((n - 1) as nat)
    }
}

/// The scale of a decimal text: its value is `digits_of(s) / scale_of(s)`.
pub open spec fn scale_of(s: Seq<char>) -> int {
    pow10(fraction_upto(s, s.len() as int))
}

/// The real and imaginary parts of a number operator, each as its digits and
/// its scale.
pub open spec fn parts_of(op: OperatorView) -> (int, int, int, int) {
    match op.values {
        ValueView::Number(c) => (
            if c.re.negative { -digits_of(c.re.text) } else { digits_of(c.re.text) },
            scale_of(c.re.text),
            if c.im.negative { -digits_of(c.im.text) } else { digits_of(c.im.text) },
            scale_of(c.im.text),
        ),
        _ => (0, 0, 0, 0),
    }
}

/// The golden ratio constant is within `1/scale` of the positive root of
/// `x^2 = x + 1`: that root lies strictly between `(n - 1)/scale` and
/// `(n + 1)/scale`, where `n/scale` is the constant's real part, which is
/// positive; its imaginary part is 0.
pub proof fn lemma_phi_is_golden(op: OperatorView)
    requires
        constant_named("phi"@) == Some(op),
    ensures
        ({
            let (n, d, m, _) = parts_of(op);
            &&& d > 0 && n > d
            &&& (n - 1) * (n - 1) - (n - 1) * d - d * d < 0
            &&& (n + 1) * (n + 1) - (n + 1) * d - d * d > 0
            &&& m == 0
        }),
{
    reveal_strlit("phi");
    reveal_strlit("i");
    reveal_strlit("pi");
    reveal_strlit("e");
    reveal_strlit("1.618033988749895");
    reveal_strlit("0");
    let t = "1.618033988749895"@;
    assert(t.len() == 17);
    assert(digits_of(t) == 1618033988749895) by {
        reveal_with_fuel(digits_upto, 18);
    }
    assert(fraction_upto(t, 17) == 15) by {
        reveal_with_fuel(fraction_upto, 18);
        assert forall|k: int| 2 <= k <= 16 implies #[trigger] t.take(k).contains('.') by {
            assert(t.take(k)[1] == '.');
        }
        assert(!t.take(1).contains('.'));
        assert(t.take(0) =~= Seq::<char>::empty());
    }
    assert(pow10(15) == 1000000000000000) by {
        reveal_with_fuel(pow10, 16);
    }
    assert(digits_of("0"@) == 0) by {
        reveal_with_fuel(digits_upto, 2);
    }
    assert("phi"@.len() == 3 && "i"@.len() == 1 && "pi"@.len() == 2 && "e"@.len() == 1);
    assert(op == crate::operator::complex_constant(t, "0"@));
    assert(scale_of(t) == 1000000000000000);
    assert(parts_of(op).0 == 1618033988749895);
    assert(parts_of(op).1 == 1000000000000000);
    assert(parts_of(op).2 == 0);
    let n = 1618033988749895int;
    let d = 1000000000000000int;
    assert((n - 1) * (n - 1) - (n - 1) * d - d * d < 0);
    assert((n + 1) * (n + 1) - (n + 1) * d - d * d > 0);
}


/// A decimal text of one digit, a point and fifteen digits reads as its
/// sixteen digits over ten to the fifteenth.
proof fn lemma_sixteen_digits(t: Seq<char>)
    requires
        t.len() == 17,
        t[1] == '.',
        t[0] != '.',
        forall|k: int| 2 <= k < 17 ==> t[k] != '.',
    ensures
        scale_of(t) == 1000000000000000,
        digits_of(t) == digits_upto(t, 1) * 1000000000000000 + digits_upto(t, 17) - digits_upto(t, 2)
            * 1000000000000000,
{
    assert(fraction_upto(t, 17) == 15) by {
        reveal_with_fuel(fraction_upto, 18);
        assert forall|k: int| 2 <= k <= 16 implies #[trigger] t.take(k).contains('.') by {
            assert(t.take(k)[1] == '.');
        }
        assert(!t.take(1).contains('.')) by {
            assert forall|j: int| 0 <= j < 1 implies t.take(1)[j] != '.' by {}
        }
    }
    assert(pow10(15) == 1000000000000000) by {
        reveal_with_fuel(pow10, 16);
    }
    assert(digits_upto(t, 2) == digits_upto(t, 1));
}

/// The factorial of `n`.
pub open spec fn factorial(n: nat) -> nat
    decreases n,
{
    if n == 0 {
        1
    } else {
        n * factorial((n - 1) as nat)
    }
}

/// `m!` times the partial sum `1/0! + 1/1! + ... + 1/m!` of the series of `e`.
pub open spec fn e_series_scaled(m: nat) -> nat
    decreases m,
{
    if m == 0 {
        1
    } else {
        m * e_series_scaled((m - 1) as nat) + 1
    }
}

/// The constant `e` is within `1/scale` of Euler's number: the partial sum
/// `s = 1/0! + ... + 1/20!` and `s + 1/(20! * 20)`, between which Euler's
/// number lies, both lie strictly between `(n - 1)/scale` and
/// `(n + 1)/scale`, where `n/scale` is the constant's real part; its
/// imaginary part is 0.
pub proof fn lemma_e_is_euler(op: OperatorView)
    requires
        constant_named("e"@) == Some(op),
    ensures
        ({
            let (n, d, m, _) = parts_of(op);
            let f = factorial(20) as int;
            let s = e_series_scaled(20) as int;
            &&& d > 0
            &&& (n - 1) * f < d * s
            &&& d * (s * 20 + 1) < (n + 1) * f * 20
            &&& m == 0
        }),
{
    reveal_strlit("i");
    reveal_strlit("pi");
    reveal_strlit("e");
    reveal_strlit("2.718281828459045");
    reveal_strlit("0");
    let t = "2.718281828459045"@;
    lemma_sixteen_digits(t);
    assert(digits_of(t) == 2718281828459045) by {
        reveal_with_fuel(digits_upto, 18);
    }
    assert(digits_of("0"@) == 0) by {
        reveal_with_fuel(digits_upto, 2);
    }
    assert("i"@.len() == 1 && "pi"@.len() == 2 && "e"@[0] == 'e' && "i"@[0] == 'i');
    assert(op == crate::operator::complex_constant(t, "0"@));
    assert(factorial(20) == 2432902008176640000) by {
        reveal_with_fuel(factorial, 21);
    }
    assert(e_series_scaled(20) == 6613313319248080001) by {
        reveal_with_fuel(e_series_scaled, 21);
    }
}

/// The constant `i` squares to -1 and has a positive imaginary part: it is
/// the imaginary unit.
pub proof fn lemma_i_is_imaginary_unit(op: OperatorView)
    requires
        constant_named("i"@) == Some(op),
    ensures
        ({
            let (a, da, b, db) = parts_of(op);
            &&& da > 0 && db > 0
            &&& a * a * db * db - b * b * da * da == -(da * da * db * db)
            &&& a * b == 0
            &&& b > 0
        }),
{
    reveal_strlit("i");
    reveal_strlit("0");
    reveal_strlit("1");
    assert(digits_of("0"@) == 0 && digits_of("1"@) == 1) by {
        reveal_with_fuel(digits_upto, 2);
    }
    assert(scale_of("0"@) == 1 && scale_of("1"@) == 1) by {
        reveal_with_fuel(fraction_upto, 2);
        assert("0"@.take(0) =~= Seq::<char>::empty());
        assert("1"@.take(0) =~= Seq::<char>::empty());
    }
    assert(op == crate::operator::complex_constant("0"@, "1"@));
}


/// `x` to the power `n`.
pub open spec fn power(x: int, n: nat) -> int
    decreases n,
{
    if n == 0 {
        1
    } else {
        x * power(x, (n - 1) as nat)
    }
}

/// The partial sum `1/x - 1/(3 x^3) + 1/(5 x^5) - ...` of the series of
/// `arctan(1/x)` up to the term of index `k`, as a numerator and a
/// denominator. For `x > 1` the terms shrink and alternate in sign, so the
/// sums up to an even and up to the next odd index bound `arctan(1/x)` from
/// above and from below.
pub open spec fn arctan_inverse_sum(x: int, k: nat) -> (int, int)
    decreases k,
{
    if k == 0 {
        (1, x)
    } else {
        let (a, b) = arctan_inverse_sum(x, (k - 1) as nat);
        let t = (2 * k + 1) * power(x, 2 * k + 1);
        (if k % 2 == 0 {
            a * t + b
        } else {
            a * t - b
        }, b * t)
    }
}

/// `16 u - 4 v` for fractions `u` and `v`.
pub open spec fn machin(u: (int, int), v: (int, int)) -> (int, int) {
    (16 * u.0 * v.1 - 4 * v.0 * u.1, u.1 * v.1)
}

/// The bounds on pi from Machin's formula, worked out.
proof fn lemma_machin_bounds()
    ensures
        ({
            let low = machin(arctan_inverse_sum(5, 13), arctan_inverse_sum(239, 4));
            let high = machin(arctan_inverse_sum(5, 12), arctan_inverse_sum(239, 5));
            &&& low.1 > 0 && high.1 > 0
            &&& 3141592653589792 * low.1 < 1000000000000000 * low.0
            &&& 1000000000000000 * high.0 < 3141592653589794 * high.1
        }),
{
    assert(power(5, 0) == 1);
    assert(power(239, 0) == 1);
    assert(power(5, 1) == 5);
    assert(power(5, 2) == 25);
    assert(power(5, 3) == 125);
    assert(power(5, 4) == 625);
    assert(power(5, 5) == 3125);
    assert(power(5, 6) == 15625);
    assert(power(5, 7) == 78125);
    assert(power(5, 8) == 390625);
    assert(power(5, 9) == 1953125);
    assert(power(5, 10) == 9765625);
    assert(power(5, 11) == 48828125);
    assert(power(5, 12) == 244140625);
    assert(power(5, 13) == 1220703125);
    assert(power(5, 14) == 6103515625);
    assert(power(5, 15) == 30517578125);
    assert(power(5, 16) == 152587890625);
    assert(power(5, 17) == 762939453125);
    assert(power(5, 18) == 3814697265625);
    assert(power(5, 19) == 19073486328125);
    assert(power(5, 20) == 95367431640625);
    assert(power(5, 21) == 476837158203125);
    assert(power(5, 22) == 2384185791015625);
    assert(power(5, 23) == 11920928955078125);
    assert(power(5, 24) == 59604644775390625);
    assert(power(5, 25) == 298023223876953125);
    assert(power(5, 26) == 1490116119384765625);
    assert(power(5, 27) == 7450580596923828125);
    assert(power(239, 1) == 239);
    assert(power(239, 2) == 57121);
    assert(power(239, 3) == 13651919);
    assert(power(239, 4) == 3262808641);
    assert(power(239, 5) == 779811265199);
    assert(power(239, 6) == 186374892382561);
    assert(power(239, 7) == 44543599279432079);
    assert(power(239, 8) == 10645920227784266881);
    assert(power(239, 9) == 2544374934440439784559);
    assert(power(239, 10) == 608105609331265108509601);
    assert(power(239, 11) == 145337240630172360933794639);
    assert(arctan_inverse_sum(5, 0) == (1int, 5int));
    assert(arctan_inverse_sum(5, 1) == (370int, 1875int)) by (nonlinear_arith)
        requires
            arctan_inverse_sum(5, 0) == (1int, 5int),
            power(5, 3) == 125,
    ;
    assert(arctan_inverse_sum(5, 2) == (5783125int, 29296875int)) by (nonlinear_arith)
        requires
            arctan_inverse_sum(5, 1) == (370int, 1875int),
            power(5, 5) == 3125,
    ;
    assert(arctan_inverse_sum(5, 3) == (3162617187500int, 16021728515625int)) by (nonlinear_arith)
        requires
            arctan_inverse_sum(5, 2) == (5783125int, 29296875int),
            power(5, 7) == 78125,
    ;
    assert(arctan_inverse_sum(5, 4) == (55592896270751953125int, 281631946563720703125int)) by (nonlinear_arith)
        requires
            arctan_inverse_sum(5, 3) == (3162617187500int, 16021728515625int),
            power(5, 9) == 1953125,
    ;
    assert(arctan_inverse_sum(5, 5) == (29859465488791465759277343750int, 151267158798873424530029296875int)) by (nonlinear_arith)
        requires
            arctan_inverse_sum(5, 4) == (55592896270751953125int, 281631946563720703125int),
            power(5, 11) == 48828125,
    ;
    assert(arctan_inverse_sum(5, 6) == (473844056980233290232717990875244140625int, 2400479814923528465442359447479248046875int)) by (nonlinear_arith)
        requires
            arctan_inverse_sum(5, 5) == (29859465488791465759277343750int, 151267158798873424530029296875int),
            power(5, 13) == 1220703125,
    ;
    assert(arctan_inverse_sum(5, 7) == (216908595417017835416118032298982143402099609375000int, 1098852454341214812671978506841696798801422119140625int)) by (nonlinear_arith)
        requires
            arctan_inverse_sum(5, 6) == (473844056980233290232717990875244140625int, 2400479814923528465442359447479248046875int),
            power(5, 15) == 30517578125,
    ;
    assert(arctan_inverse_sum(5, 8) == (2813298127815813819856995137147492869189591147005558013916015625int, 14252084139862557842577846234366489852618542499840259552001953125int)) by (nonlinear_arith)
        requires
            arctan_inverse_sum(5, 7) == (216908595417017835416118032298982143402099609375000int, 1098852454341214812671978506841696798801422119140625int),
            power(5, 17) == 762939453125,
    ;
    assert(arctan_inverse_sum(5, 9) == (1019528664178842837478903876871676398643828953538559289881959557533264160156250int, 5164901707790157299213010376986757415766760015429781560669653117656707763671875int)) by (nonlinear_arith)
        requires
            arctan_inverse_sum(5, 8) == (2813298127815813819856995137147492869189591147005558013916015625int, 14252084139862557842577846234366489852618542499840259552001953125int),
            power(5, 19) == 19073486328125,
    ;
    assert(arctan_inverse_sum(5, 10) == (10209132169607024392433608870434362759916089126034752405935979169271377031691372394561767578125int, 51719158107563640252815827329979851594496708070767122637778623328586036222986876964569091796875int)) by (nonlinear_arith)
        requires
            arctan_inverse_sum(5, 9) == (1019528664178842837478903876871676398643828953538559289881959557533264160156250int, 5164901707790157299213010376986757415766760015429781560669653117656707763671875int),
            power(5, 21) == 476837158203125,
    ;
    assert(arctan_inverse_sum(5, 11) == (2799153803598422487824625605061748172511355080961264086871732567932905683116828754464222583919763565063476562500int, 14180429416584536144909429890984732945840648241372630842553476530998692907437064292253126041032373905181884765625int)) by (nonlinear_arith)
        requires
            arctan_inverse_sum(5, 10) == (10209132169607024392433608870434362759916089126034752405935979169271377031691372394561767578125int, 51719158107563640252815827329979851594496708070767122637778623328586036222986876964569091796875int),
            power(5, 23) == 11920928955078125,
    ;
    assert(arctan_inverse_sum(5, 12) == (20855321016895938588141580100507215662412177970294077884772505051919339568816737033100342131597404460308098350651562213897705078125int, 105652432267252625114540978453939653529529632936214140374611888311793602313377442153193995662274762281640505534596741199493408203125int)) by (nonlinear_arith)
        requires
            arctan_inverse_sum(5, 11) == (2799153803598422487824625605061748172511355080961264086871732567932905683116828754464222583919763565063476562500int, 14180429416584536144909429890984732945840648241372630842553476530998692907437064292253126041032373905181884765625int),
            power(5, 25) == 298023223876953125,
    ;
    assert(arctan_inverse_sum(5, 13) == (4195374752999770208192186305650400271566356534562672450713939876559745799865561897774864320797419966280948589940069659576238336740061640739440917968750int, 21253642970441437349413383143070121446976811358912153468389220419663393962839178280057295284281809490951103340343475434082165520521812140941619873046875int)) by (nonlinear_arith)
        requires
            arctan_inverse_sum(5, 12) == (20855321016895938588141580100507215662412177970294077884772505051919339568816737033100342131597404460308098350651562213897705078125int, 105652432267252625114540978453939653529529632936214140374611888311793602313377442153193995662274762281640505534596741199493408203125int),
            power(5, 27) == 7450580596923828125,
    ;
    assert(arctan_inverse_sum(239, 0) == (1int, 239int));
    assert(arctan_inverse_sum(239, 1) == (40955518int, 9788425923int)) by (nonlinear_arith)
        requires
            arctan_inverse_sum(239, 0) == (1int, 239int),
            power(239, 3) == 13651919,
    ;
    assert(arctan_inverse_sum(239, 2) == (159687871552090516333int, 38165624016606596768385int)) by (nonlinear_arith)
        requires
            arctan_inverse_sum(239, 1) == (40955518int, 9788425923int),
            power(239, 5) == 779811265199,
    ;
    assert(arctan_inverse_sum(239, 3) == (49791507921412152405255969088198755764int, 11900239837116352767488444244036514156905int)) by (nonlinear_arith)
        requires
            arctan_inverse_sum(239, 2) == (159687871552090516333int, 38165624016606596768385int),
            power(239, 7) == 44543599279432079,
    ;
    assert(arctan_inverse_sum(239, 4) == (1140194382329103151374160711029880811310770233350648689189589int, 272508047598495869038431750005203854635376758415599325500069055int)) by (nonlinear_arith)
        requires
            arctan_inverse_sum(239, 3) == (49791507921412152405255969088198755764int, 11900239837116352767488444244036514156905int),
            power(239, 9) == 2544374934440439784559,
    ;
    assert(arctan_inverse_sum(239, 5) == (1822839758407091704849836646563651684519602910583071614029169874033571532074884590878026int, 435661244562291632346551679129738521856608271979088589960598468597376487439303054576757595int)) by (nonlinear_arith)
        requires
            arctan_inverse_sum(239, 4) == (1140194382329103151374160711029880811310770233350648689189589int, 272508047598495869038431750005203854635376758415599325500069055int),
            power(239, 11) == 145337240630172360933794639,
    ;
}

/// The constant `pi` is within `1/scale` of the number pi, which Machin's
/// formula gives as `16 arctan(1/5) - 4 arctan(1/239)`: the bounds on it
/// from the partial arctan sums (see `arctan_inverse_sum`) both lie strictly
/// between `(n - 1)/scale` and `(n + 1)/scale`, where `n/scale` is the
/// constant's real part; its imaginary part is 0.
pub proof fn lemma_pi_is_pi(op: OperatorView)
    requires
        constant_named("pi"@) == Some(op),
    ensures
        ({
            let (n, d, m, _) = parts_of(op);
            let low = machin(arctan_inverse_sum(5, 13), arctan_inverse_sum(239, 4));
            let high = machin(arctan_inverse_sum(5, 12), arctan_inverse_sum(239, 5));
            &&& d > 0 && low.1 > 0 && high.1 > 0
            &&& (n - 1) * low.1 < d * low.0
            &&& d * high.0 < (n + 1) * high.1
            &&& m == 0
        }),
{
    reveal_strlit("i");
    reveal_strlit("pi");
    reveal_strlit("3.141592653589793");
    reveal_strlit("0");
    let t = "3.141592653589793"@;
    lemma_sixteen_digits(t);
    assert(digits_of(t) == 3141592653589793) by {
        reveal_with_fuel(digits_upto, 18);
    }
    assert(digits_of("0"@) == 0) by {
        reveal_with_fuel(digits_upto, 2);
    }
    assert("i"@.len() == 1 && "pi"@.len() == 2);
    assert(op == crate::operator::complex_constant(t, "0"@));
    lemma_machin_bounds();
}

} // verus!
