//! Laws: how signals are named and looked up, and how their values are shown.
use crate::ir::IrModule;
use crate::sim_session::{SimRunner, StepMode};
use vstd::prelude::*;

verus! {

/// The two spellings of each step mode, and no other.
pub proof fn law_step_modes(raw: Seq<char>)
    ensures
        crate::sim_commands::mode_of(raw) == Some(StepMode::OneStatement) <==> raw == "statement"@
            || raw == "OneStatement"@,
        crate::sim_commands::mode_of(raw) == Some(StepMode::OneTick) <==> raw == "tick"@ || raw
            == "OneTick"@,
        crate::sim_commands::mode_of(raw) == Some(StepMode::OneCycle) <==> raw == "cycle"@ || raw
            == "OneCycle"@,
        crate::sim_commands::mode_of(raw) == Some(StepMode::ToEnd) <==> raw == "run"@ || raw
            == "ToEnd"@,
        crate::sim_commands::mode_of(raw) is None || crate::sim_commands::mode_of(raw) == Some(
            StepMode::OneStatement,
        ) || crate::sim_commands::mode_of(raw) == Some(StepMode::OneTick)
            || crate::sim_commands::mode_of(raw) == Some(StepMode::OneCycle)
            || crate::sim_commands::mode_of(raw) == Some(StepMode::ToEnd),
{
    reveal_strlit("statement");
    reveal_strlit("OneStatement");
    reveal_strlit("tick");
    reveal_strlit("OneTick");
    reveal_strlit("cycle");
    reveal_strlit("OneCycle");
    reveal_strlit("run");
    reveal_strlit("ToEnd");
    assert("statement"@.len() == 9 && "OneStatement"@.len() == 12 && "tick"@.len() == 4
        && "OneTick"@.len() == 7 && "cycle"@.len() == 5 && "OneCycle"@.len() == 8 && "run"@.len()
        == 3 && "ToEnd"@.len() == 5);
    assert("cycle"@[0] == 'c' && "ToEnd"@[0] == 'T');
}

/// The text is a number in the base.
pub open spec fn reads_as(text: Seq<char>, base: nat, n: nat) -> bool {
    exists|ds: Seq<nat>| #[trigger]
        crate::literal_laws::digits_are(text, ds, base) && crate::literal_laws::worth(ds, base) == n
}

proof fn lemma_reads(text: Seq<char>, base: nat) -> (ds: Seq<nat>)
    requires
        2 <= base <= 16,
        crate::number::digits_value(text, base) is Some,
    ensures
        crate::literal_laws::digits_are(text, ds, base),
    decreases text.len(),
{
    if text.len() == 0 {
        Seq::empty()
    } else {
        let before = lemma_reads(text.drop_last(), base);
        let d = crate::number::digit_value(text.last(), base).unwrap();
        let ds = before.push(d);
        assert forall|i: int| 0 <= i < ds.len() implies crate::literal_laws::digit_is(
            #[trigger] text[i],
            ds[i],
        ) && ds[i] < base by {
            if i < before.len() {
                assert(crate::literal_laws::digit_is(text.drop_last()[i], before[i]));
            }
        }
        ds
    }
}

proof fn lemma_reads_as(text: Seq<char>, base: nat, n: nat)
    requires
        2 <= base <= 16,
        crate::number::digits_value(text, base) == Some(n),
    ensures
        reads_as(text, base, n),
{
    let ds = lemma_reads(text, base);
    crate::literal_laws::law_digits(text, ds, base);
}

proof fn lemma_zeros(s: Seq<char>, k: nat, base: nat)
    requires
        2 <= base <= 16,
        crate::number::digits_value(s, base) is Some,
    ensures
        crate::number::digits_value(Seq::new(k, |i: int| '0') + s, base)
            == crate::number::digits_value(s, base),
    decreases s.len(), k,
{
    let z = Seq::new(k, |i: int| '0');
    if s.len() > 0 {
        assert((z + s).drop_last() =~= z + s.drop_last());
        lemma_zeros(s.drop_last(), k, base);
    } else {
        assert(z + s =~= z);
        if k > 0 {
            let y = Seq::new((k - 1) as nat, |i: int| '0');
            assert(z.drop_last() =~= y);
            assert(y + s =~= y);
            lemma_zeros(s, (k - 1) as nat, base);
            assert(0nat * base == 0);
        } else {
            assert(z =~= s);
        }
    }
}

proof fn lemma_first_digit(n: nat, base: nat)
    requires
        2 <= base <= 16,
    ensures
        crate::number::radix_digits(n, base).len() > 0,
        crate::number::radix_digits(n, base)[0] == '0' ==> n == 0,
    decreases n,
{
    if n >= base {
        assert(n / base < n && n / base > 0) by (nonlinear_arith)
            requires
                n >= base,
                base >= 2,
        ;
        lemma_first_digit(n / base, base);
    }
}

proof fn lemma_first_decimal(n: nat)
    ensures
        crate::number::decimal_digits(n).len() > 0,
        crate::number::decimal_digits(n)[0] == '0' ==> n == 0,
    decreases n,
{
    if n >= 10 {
        lemma_first_decimal(n / 10);
    }
}

/// A value is shown as the unsigned number of its low bits: in decimal and in hexadecimal
/// without leading zeros, and in binary with at least as many digits as it has bits.
pub proof fn law_rendered_value(v: i64, width: usize, u: nat)
    requires
        0 < width < 63 ==> u < vstd::arithmetic::power2::pow2(width as nat) && exists|q: int|
            crate::operator_laws::unsigned(v) == #[trigger] (q * vstd::arithmetic::power2::pow2(
                width as nat,
            )) + u,
        width == 0 || width >= 63 ==> u == crate::operator_laws::unsigned(v),
    ensures
        ({
            let (dec, hex, bin) = crate::sim_commands::rendered(v, width);
            &&& reads_as(dec, 10, u)
            &&& dec.len() > 0 && (dec[0] == '0' ==> u == 0)
            &&& hex.len() > 2 && hex[0] == '0' && hex[1] == 'x' && reads_as(hex.skip(2), 16, u)
            &&& hex[2] == '0' ==> u == 0
            &&& bin.len() > 2 && bin[0] == '0' && bin[1] == 'b' && reads_as(bin.skip(2), 2, u)
            &&& bin.len() >= width + 2
            &&& bin.len() > width + 2 && bin.len() > 3 ==> bin[2] != '0'
        }),
{
    reveal_strlit("0x");
    reveal_strlit("0b");
    let n = crate::sim_commands::unsigned_of(v, width);
    crate::operator_laws::lemma_unsigned(v);
    if 0 < width < 63 {
        let m = vstd::arithmetic::power2::pow2(width as nat) as int;
        let q = choose|q: int|
            crate::operator_laws::unsigned(v) == #[trigger] (q * vstd::arithmetic::power2::pow2(
                width as nat,
            )) + u;
        vstd::arithmetic::power2::lemma_pow2_pos(width as nat);
        vstd::arithmetic::div_mod::lemma_fundamental_div_mod_converse(
            crate::operator_laws::unsigned(v),
            m,
            q,
            u as int,
        );
    }
    assert(n == u);
    crate::number::law_decimal_digits_value(u);
    lemma_reads_as(crate::number::decimal_digits(u), 10, u);
    lemma_first_decimal(u);
    let hex = crate::number::radix_digits(u, 16);
    crate::number::law_radix_digits_value(u, 16);
    lemma_reads_as(hex, 16, u);
    lemma_first_digit(u, 16);
    assert(("0x"@ + hex).skip(2) =~= hex);
    let bits = crate::number::radix_digits(u, 2);
    crate::number::law_radix_digits_value(u, 2);
    lemma_first_digit(u, 2);
    let w = if width == 0 {
        1
    } else {
        width as nat
    };
    let padded = crate::number::zero_padded(bits, w);
    if bits.len() < w {
        lemma_zeros(bits, (w - bits.len()) as nat, 2);
    }
    lemma_reads_as(padded, 2, u);
    assert(("0b"@ + padded).skip(2) =~= padded);
    if u == 0 {
        assert(bits =~= seq![crate::number::radix_char(0)]);
    }
}

/// Of several names of a signal, the first one that has a value gives it.
pub proof fn law_first_name_with_a_value<R: SimRunner>(
    run: R,
    names: Seq<Seq<char>>,
    time: Option<u64>,
    k: int,
)
    requires
        0 <= k < names.len(),
        forall|j: int|
            0 <= j < k ==> crate::sim_commands::value_of(run, #[trigger] names[j], time) is None,
        crate::sim_commands::value_of(run, names[k], time) is Some,
    ensures
        crate::sim_commands::first_value(run, names, time) matches Some(m) && ({
            let (v, width, name) = crate::sim_commands::value_of(run, names[k], time).unwrap();
            m.current == crate::sim_commands::rendered(v, width) && m.width == width && m.name
                == name
        }),
    decreases names.len(),
{
    let front = names.drop_last();
    if k < names.len() - 1 {
        assert(front[k] == names[k]);
        assert forall|j: int| 0 <= j < k implies crate::sim_commands::value_of(
            run,
            #[trigger] front[j],
            time,
        ) is None by {
            assert(crate::sim_commands::value_of(run, names[j], time) is None);
        }
        law_first_name_with_a_value(run, front, time, k);
    } else {
        assert forall|j: int| 0 <= j < front.len() implies crate::sim_commands::value_of(
            run,
            #[trigger] front[j],
            time,
        ) is None by {
            assert(crate::sim_commands::value_of(run, names[j], time) is None);
        }
        law_no_name_has_a_value(run, front, time);
    }
}

/// Where no name has a value, there is none.
pub proof fn law_no_name_has_a_value<R: SimRunner>(
    run: R,
    names: Seq<Seq<char>>,
    time: Option<u64>,
)
    requires
        forall|j: int|
            0 <= j < names.len() ==> crate::sim_commands::value_of(
                run,
                #[trigger] names[j],
                time,
            ) is None,
    ensures
        crate::sim_commands::first_value(run, names, time) is None,
    decreases names.len(),
{
    if names.len() > 0 {
        let front = names.drop_last();
        assert(crate::sim_commands::value_of(run, names[names.len() - 1], time) is None);
        assert forall|j: int| 0 <= j < front.len() implies crate::sim_commands::value_of(
            run,
            #[trigger] front[j],
            time,
        ) is None by {
            assert(crate::sim_commands::value_of(run, names[j], time) is None);
        }
        law_no_name_has_a_value(run, front, time);
    }
}

/// The names that an identifier may stand for: itself, then under the top module, then under
/// each module of the file that it was read in, in order.
pub proof fn law_candidates(
    ms: Seq<IrModule>,
    top: Seq<char>,
    name: Seq<char>,
    file: Seq<char>,
    m: IrModule,
)
    ensures
        crate::sim_commands::candidate_names(ms, top, name, None) == seq![
            name,
            top + seq!['.'] + name,
        ],
        crate::sim_commands::candidate_names(Seq::empty(), top, name, Some(file)) == seq![
            name,
            top + seq!['.'] + name,
        ],
        m.path@ == file ==> crate::sim_commands::candidate_names(
            ms.push(m),
            top,
            name,
            Some(file),
        ) == crate::sim_commands::candidate_names(ms, top, name, Some(file)).push(
            m.name@ + seq!['.'] + name,
        ),
        m.path@ != file ==> crate::sim_commands::candidate_names(
            ms.push(m),
            top,
            name,
            Some(file),
        ) == crate::sim_commands::candidate_names(ms, top, name, Some(file)),
    decreases ms.len(),
{
    reveal_strlit(".");
    assert("."@ =~= seq!['.']);
    assert(ms.push(m).drop_last() =~= ms);
    if ms.len() > 0 {
        law_candidates(ms.drop_last(), top, name, file, m);
    }
}

/// Points in a name become two underscores each, and nothing else changes.
pub proof fn law_flattening(a: Seq<char>, b: Seq<char>, plain: Seq<char>)
    requires
        forall|i: int| 0 <= i < plain.len() ==> #[trigger] plain[i] != '.',
    ensures
        crate::signal_names::flattened(plain) == plain,
        crate::signal_names::flattened(a + seq!['.'] + b) == crate::signal_names::flattened(a)
            + seq!['_', '_'] + crate::signal_names::flattened(b),
{
    lemma_plain(plain);
    lemma_flat_concat(a + seq!['.'], b);
    assert((a + seq!['.']).drop_last() =~= a);
    assert(crate::signal_names::flattened(a + seq!['.']) =~= crate::signal_names::flattened(a)
        + seq!['_', '_']);
}

proof fn lemma_plain(s: Seq<char>)
    requires
        forall|i: int| 0 <= i < s.len() ==> #[trigger] s[i] != '.',
    ensures
        crate::signal_names::flattened(s) == s,
    decreases s.len(),
{
    if s.len() > 0 {
        let front = s.drop_last();
        assert(s[s.len() - 1] != '.');
        assert forall|i: int| 0 <= i < front.len() implies #[trigger] front[i] != '.' by {
            assert(s[i] != '.');
        }
        lemma_plain(front);
        assert(front.push(s.last()) =~= s);
    }
    assert(crate::signal_names::flattened(s) =~= s);
}

proof fn lemma_flat_concat(a: Seq<char>, b: Seq<char>)
    ensures
        crate::signal_names::flattened(a + b) == crate::signal_names::flattened(a)
            + crate::signal_names::flattened(b),
    decreases b.len(),
{
    if b.len() == 0 {
        assert(a + b =~= a);
        assert(crate::signal_names::flattened(a) + Seq::<char>::empty()
            =~= crate::signal_names::flattened(a));
    } else {
        assert((a + b).drop_last() =~= a + b.drop_last());
        lemma_flat_concat(a, b.drop_last());
        assert(crate::signal_names::flattened(a + b) =~= crate::signal_names::flattened(a)
            + crate::signal_names::flattened(b));
    }
}

/// A name under a scope splits into the scope and the rest, and a name without two
/// underscores has no scope.
pub proof fn law_scopes(scope: Seq<char>, leaf: Seq<char>)
    requires
        leaf.len() > 0 ==> leaf[0] != '_',
        forall|i: int| 0 <= i < leaf.len() - 1 ==> !(#[trigger] leaf[i] == '_' && leaf[i + 1] == '_'),
    ensures
        crate::signal_names::leaf_of(scope + seq!['_', '_'] + leaf) == leaf,
        crate::signal_names::scope_of(scope + seq!['_', '_'] + leaf) == Some(scope),
        crate::signal_names::leaf_of(leaf) == leaf,
        crate::signal_names::scope_of(leaf) is None,
{
    let s = scope + seq!['_', '_'] + leaf;
    lemma_join(scope, leaf);
    lemma_no_join(leaf);
    assert(s.skip(scope.len() as int + 2) =~= leaf);
    assert(s.take(scope.len() as int) =~= scope);
}

proof fn lemma_join(scope: Seq<char>, leaf: Seq<char>)
    requires
        leaf.len() > 0 ==> leaf[0] != '_',
        forall|i: int| 0 <= i < leaf.len() - 1 ==> !(#[trigger] leaf[i] == '_' && leaf[i + 1] == '_'),
    ensures
        crate::signal_names::last_join(scope + seq!['_', '_'] + leaf) == Some(scope.len() as int),
    decreases leaf.len(),
{
    let s = scope + seq!['_', '_'] + leaf;
    if leaf.len() > 0 {
        assert(s.drop_last() =~= scope + seq!['_', '_'] + leaf.drop_last());
        if leaf.len() > 1 {
            let i = leaf.len() - 2;
            assert(!(leaf[i] == '_' && leaf[i + 1] == '_'));
            assert(s[s.len() - 2] == leaf[i] && s[s.len() - 1] == leaf[i + 1]);
        } else {
            assert(s[s.len() - 1] == leaf[0]);
        }
        assert forall|i: int| 0 <= i < leaf.drop_last().len() - 1 implies !(
        #[trigger] leaf.drop_last()[i] == '_' && leaf.drop_last()[i + 1] == '_') by {
            assert(!(leaf[i] == '_' && leaf[i + 1] == '_'));
        }
        lemma_join(scope, leaf.drop_last());
    } else {
        assert(s[s.len() - 2] == '_' && s[s.len() - 1] == '_');
    }
}

proof fn lemma_no_join(leaf: Seq<char>)
    requires
        forall|i: int| 0 <= i < leaf.len() - 1 ==> !(#[trigger] leaf[i] == '_' && leaf[i + 1] == '_'),
    ensures
        crate::signal_names::last_join(leaf) is None,
    decreases leaf.len(),
{
    if leaf.len() >= 2 {
        let i = leaf.len() - 2;
        assert(!(leaf[i] == '_' && leaf[i + 1] == '_'));
        assert forall|i: int| 0 <= i < leaf.drop_last().len() - 1 implies !(
        #[trigger] leaf.drop_last()[i] == '_' && leaf.drop_last()[i + 1] == '_') by {
            assert(!(leaf[i] == '_' && leaf[i + 1] == '_'));
        }
        lemma_no_join(leaf.drop_last());
    }
}

/// A value at a time is shown with the one before it where it changes then, and alone
/// otherwise.
pub proof fn law_previous_value<R: SimRunner>(
    run: R,
    v: i64,
    width: usize,
    name: Seq<char>,
    t: u64,
)
    ensures
        crate::sim_commands::evaluated(run, (v, width, name), None).previous is None,
        crate::sim_session::signal_transition(run, name, t) is None
            ==> crate::sim_commands::evaluated(run, (v, width, name), Some(t)).previous is None,
        crate::sim_session::signal_transition(run, name, t) matches Some((from, to))
            ==> crate::sim_commands::evaluated(run, (v, width, name), Some(t)).previous == Some(
            crate::sim_commands::rendered(from, width),
        ),
{
}

/// The top that is asked for is taken, and where none is, the top of the project.
pub proof fn law_chosen_top(ms: Seq<IrModule>, asked: Seq<char>)
    ensures
        crate::sim_commands::chosen_top(ms, Some(asked)) == Some(asked),
        crate::sim_commands::chosen_top(ms, None) == crate::project::top_among(
            ms,
            crate::project_laws::roots_of(ms),
        ),
{
}

/// A session is found under its id, and one that is added changes no other.
pub proof fn law_session_lookup<R: SimRunner>(
    s: Seq<(crate::sim_session::SessionId, crate::sessions::SessionEntry<R>)>,
    x: (crate::sim_session::SessionId, crate::sessions::SessionEntry<R>),
    id: crate::sim_session::SessionId,
)
    ensures
        crate::sessions::by_id(s.push(x)).contains_key(x.0),
        crate::sessions::by_id(s.push(x))[x.0] == x.1,
        id != x.0 ==> crate::sessions::by_id(s.push(x)).contains_key(id)
            == crate::sessions::by_id(s).contains_key(id),
        id != x.0 && crate::sessions::by_id(s).contains_key(id) ==> crate::sessions::by_id(
            s.push(x),
        )[id] == crate::sessions::by_id(s)[id],
{
    assert(s.push(x).drop_last() =~= s);
}

} // verus!
