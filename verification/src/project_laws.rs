//! Laws: which files are sources, which modules are test benches, and which is the top.
use crate::ir::IrModule;
use crate::project::Trait;
use vstd::prelude::*;

verus! {

/// Letters are compared without their case, and nothing else is changed for that.
pub proof fn law_lower_case(s: Seq<char>, i: int)
    requires
        0 <= i < s.len(),
    ensures
        crate::paths::lowered(s).len() == s.len(),
        'A' <= s[i] <= 'Z' ==> crate::paths::lowered(s)[i] as u32 == s[i] as u32 + 32,
        !('A' <= s[i] <= 'Z') ==> crate::paths::lowered(s)[i] == s[i],
{
}

/// The text without its case holds the words.
pub open spec fn says(s: Seq<char>, words: Seq<char>) -> bool {
    exists|a: Seq<char>, b: Seq<char>| crate::paths::lowered(s) == #[trigger] (a + words + b)
}

/// The text without its case begins with the words.
pub open spec fn opens(s: Seq<char>, words: Seq<char>) -> bool {
    exists|b: Seq<char>| crate::paths::lowered(s) == #[trigger] (words + b)
}

/// The text without its case ends with the words.
pub open spec fn ends(s: Seq<char>, words: Seq<char>) -> bool {
    exists|a: Seq<char>| crate::paths::lowered(s) == #[trigger] (a + words)
}

proof fn lemma_says(s: Seq<char>, words: Seq<char>)
    ensures
        crate::paths::has_text(crate::paths::lowered(s), words) <==> says(s, words),
        crate::paths::has_prefix(crate::paths::lowered(s), words) <==> opens(s, words),
        crate::paths::has_suffix(crate::paths::lowered(s), words) <==> ends(s, words),
{
    let n = crate::paths::lowered(s);
    if crate::paths::has_text(n, words) {
        let i = choose|i: int| crate::paths::stands_at(n, words, i);
        let (a, b) = (n.take(i), n.skip(i + words.len()));
        assert(n =~= a + n.subrange(i, i + words.len()) + b);
        assert(n == a + words + b);
    }
    if says(s, words) {
        let (a, b) = choose|a: Seq<char>, b: Seq<char>| n == #[trigger] (a + words + b);
        assert(n.subrange(a.len() as int, a.len() as int + words.len()) =~= words);
        assert(crate::paths::stands_at(n, words, a.len() as int));
    }
    if crate::paths::has_prefix(n, words) {
        let b = n.skip(words.len() as int);
        assert(n =~= n.subrange(0, words.len() as int) + b);
        assert(n == words + b);
    }
    if opens(s, words) {
        let b = choose|b: Seq<char>| n == #[trigger] (words + b);
        assert(n.subrange(0, words.len() as int) =~= words);
    }
    if crate::paths::has_suffix(n, words) {
        let i = n.len() - words.len();
        let a = n.take(i);
        assert(n =~= a + n.subrange(i, n.len() as int));
        assert(n == a + words);
    }
    if ends(s, words) {
        let a = choose|a: Seq<char>| n == #[trigger] (a + words);
        assert(n.subrange(a.len() as int, n.len() as int) =~= words);
    }
}

/// Names of test benches: with `testbench` or `test_bench` in them, with `tb_` in front or
/// `_tb` behind.
pub proof fn law_bench_modules(name: Seq<char>)
    ensures
        crate::paths::bench_module(name) <==> says(name, "testbench"@) || says(name, "test_bench"@)
            || opens(name, "tb_"@) || ends(name, "_tb"@),
{
    lemma_says(name, "testbench"@);
    lemma_says(name, "test_bench"@);
    lemma_says(name, "tb_"@);
    lemma_says(name, "_tb"@);
}

/// Files of test benches: with `testbench` in their name, with `tb_` in front or `_tb.v`
/// behind.
pub proof fn law_bench_files(name: Seq<char>)
    ensures
        crate::paths::bench_file(name) <==> says(name, "testbench"@) || opens(name, "tb_"@) || ends(
            name,
            "_tb.v"@,
        ),
{
    lemma_says(name, "testbench"@);
    lemma_says(name, "tb_"@);
    lemma_says(name, "_tb.v"@);
}

proof fn lemma_part_start(a: Seq<char>, sep: char, b: Seq<char>, n: int)
    requires
        forall|k: int| 0 <= k < b.len() ==> #[trigger] b[k] != sep,
        0 <= n <= b.len(),
    ensures
        crate::paths::part_start(a + seq![sep] + b, sep, a.len() + 1 + n) == a.len() + 1,
    decreases n,
{
    let s = a + seq![sep] + b;
    if n > 0 {
        assert(s[a.len() + n] == b[n - 1]);
        lemma_part_start(a, sep, b, n - 1);
    } else {
        assert(s[a.len() as int] == sep);
    }
}

proof fn lemma_part_start_none(b: Seq<char>, sep: char, n: int)
    requires
        forall|k: int| 0 <= k < b.len() ==> #[trigger] b[k] != sep,
        0 <= n <= b.len(),
    ensures
        crate::paths::part_start(b, sep, n) == 0,
    decreases n,
{
    if n > 0 {
        assert(b[n - 1] != sep);
        lemma_part_start_none(b, sep, n - 1);
    }
}

/// The name of a file is what follows the last slash of its path.
pub proof fn law_file_name(dir: Seq<char>, name: Seq<char>)
    requires
        name.len() > 0,
        forall|k: int| 0 <= k < name.len() ==> #[trigger] name[k] != '/',
        name != seq!['.'],
        name != seq!['.', '.'],
    ensures
        crate::paths::file_name(dir + seq!['/'] + name) == Some(name),
        crate::paths::file_name(name) == Some(name),
{
    let p = dir + seq!['/'] + name;
    assert(p.last() == name[name.len() - 1]);
    lemma_part_start(dir, '/', name, name.len() as int);
    assert(p.subrange(dir.len() as int + 1, p.len() as int) =~= name);
    lemma_part_start_none(name, '/', name.len() as int);
    assert(name.last() == name[name.len() - 1]);
    assert(name.subrange(0, name.len() as int) =~= name);
}

/// A source file is one whose name ends, behind its last point, in `v` or `sv`, in either
/// case, and does not begin with that point.
pub proof fn law_source_files(dir: Seq<char>, stem: Seq<char>, ext: Seq<char>)
    requires
        stem.len() > 0,
        forall|k: int| 0 <= k < stem.len() ==> #[trigger] stem[k] != '/',
        forall|k: int| 0 <= k < ext.len() ==> #[trigger] ext[k] != '/' && ext[k] != '.',
        ext.len() > 0,
    ensures
        crate::paths::names_source(dir + seq!['/'] + (stem + seq!['.'] + ext)) <==> (ext.len() == 1
            && (ext[0] == 'v' || ext[0] == 'V') || ext.len() == 2 && (ext[0] == 's' || ext[0]
            == 'S') && (ext[1] == 'v' || ext[1] == 'V')),
{
    let name = stem + seq!['.'] + ext;
    assert forall|k: int| 0 <= k < name.len() implies #[trigger] name[k] != '/' by {
        if k < stem.len() {
            assert(name[k] == stem[k]);
        } else if k > stem.len() {
            assert(name[k] == ext[k - stem.len() - 1]);
        }
    }
    if name == seq!['.', '.'] {
        assert(name.len() == 2);
    }
    law_file_name(dir, name);
    lemma_part_start(stem, '.', ext, ext.len() as int);
    assert(name.skip(stem.len() as int + 1) =~= ext);
    let low = crate::paths::lowered(ext);
    reveal_strlit("v");
    reveal_strlit("sv");
    law_lower_case(ext, 0);
    lemma_lower(ext[0]);
    if ext.len() == 2 {
        law_lower_case(ext, 1);
        lemma_lower(ext[1]);
        assert(low == "sv"@ <==> low[0] == 's' && low[1] == 'v') by {
            if low[0] == 's' && low[1] == 'v' {
                assert(low =~= "sv"@);
            }
        }
    }
    if ext.len() == 1 {
        assert(low == "v"@ <==> low[0] == 'v') by {
            if low[0] == 'v' {
                assert(low =~= "v"@);
            }
        }
    }
}

proof fn lemma_lower(c: char)
    ensures
        crate::paths::lower(c) == 'v' <==> c == 'v' || c == 'V',
        crate::paths::lower(c) == 's' <==> c == 's' || c == 'S',
{
}

/// A path without a point in its name is no source file, and neither is one whose name
/// begins with its only point.
pub proof fn law_no_extension(dir: Seq<char>, name: Seq<char>)
    requires
        name.len() > 0,
        forall|k: int| 0 <= k < name.len() ==> #[trigger] name[k] != '/' && name[k] != '.',
    ensures
        !crate::paths::names_source(dir + seq!['/'] + name),
        !crate::paths::names_source(dir + seq!['/'] + (seq!['.'] + name)),
{
    assert(name[0] != '.');
    law_file_name(dir, name);
    lemma_part_start_none(name, '.', name.len() as int);
    let hidden = seq!['.'] + name;
    assert forall|k: int| 0 <= k < hidden.len() implies #[trigger] hidden[k] != '/' by {
        if k > 0 {
            assert(hidden[k] == name[k - 1]);
        }
    }
    if hidden.len() == 2 {
        assert(hidden[1] == name[0]);
    }
    law_file_name(dir, hidden);
    lemma_part_start(Seq::empty(), '.', name, name.len() as int);
    assert(Seq::<char>::empty() + seq!['.'] + name =~= hidden);
}

/// No instance names the module.
pub open spec fn is_root(ms: Seq<IrModule>, m: IrModule) -> bool {
    forall|i: int, j: int|
        0 <= i < ms.len() && 0 <= j < ms[i].instances@.len() ==> (
        #[trigger] ms[i].instances@[j]).module_name@ != m.name@
}

/// Module `k` is a root.
pub open spec fn root_at(ms: Seq<IrModule>, k: int) -> bool {
    0 <= k < ms.len() && is_root(ms, ms[k])
}

proof fn lemma_having(ms: Seq<IrModule>, from: Seq<IrModule>, t: Trait, k: int)
    requires
        0 <= k < from.len(),
        crate::project::has_trait(ms, from[k], t),
    ensures
        crate::project::having(ms, from, t).contains(from[k]),
        crate::project::having(ms, from, t).len() > 0,
    decreases from.len(),
{
    reveal(Seq::filter);
    let all = crate::project::having(ms, from, t);
    let front = crate::project::having(ms, from.drop_last(), t);
    if k == from.len() - 1 {
        assert(all[all.len() - 1] == from[k]);
    } else {
        assert(from.drop_last()[k] == from[k]);
        lemma_having(ms, from.drop_last(), t, k);
        let i = choose|i: int| 0 <= i < front.len() && front[i] == from[k];
        assert(all[i] == from[k]);
    }
}

proof fn lemma_having_only(ms: Seq<IrModule>, from: Seq<IrModule>, t: Trait)
    ensures
        forall|i: int|
            0 <= i < crate::project::having(ms, from, t).len() ==> from.contains(
                #[trigger] crate::project::having(ms, from, t)[i],
            ) && crate::project::has_trait(ms, crate::project::having(ms, from, t)[i], t),
    decreases from.len(),
{
    reveal(Seq::filter);
    let all = crate::project::having(ms, from, t);
    if from.len() > 0 {
        let front = from.drop_last();
        let some = crate::project::having(ms, front, t);
        lemma_having_only(ms, front, t);
        assert forall|i: int| 0 <= i < all.len() implies from.contains(#[trigger] all[i])
            && crate::project::has_trait(ms, all[i], t) by {
            if i < some.len() {
                assert(all[i] == some[i]);
                let j = choose|j: int| 0 <= j < front.len() && front[j] == some[i];
                assert(from[j] == all[i]);
            } else {
                assert(all[i] == from[from.len() - 1]);
            }
        }
    }
}

proof fn lemma_last_name(ms: Seq<IrModule>)
    requires
        ms.len() > 0,
    ensures
        exists|i: int|
            0 <= i < ms.len() && (#[trigger] ms[i]).name@ == crate::project::last_name(ms),
        forall|i: int|
            0 <= i < ms.len() ==> !crate::text::text_lt(
                crate::project::last_name(ms),
                (#[trigger] ms[i]).name@,
            ),
    decreases ms.len(),
{
    let n = crate::project::last_name(ms);
    let front = ms.drop_last();
    let last = ms[ms.len() - 1].name@;
    crate::paths::lemma_text_lt_irreflexive(n);
    crate::paths::lemma_text_lt_irreflexive(last);
    if ms.len() > 1 {
        lemma_last_name(front);
        let before = crate::project::last_name(front);
        assert forall|i: int| 0 <= i < ms.len() implies !crate::text::text_lt(
            n,
            (#[trigger] ms[i]).name@,
        ) by {
            let x = ms[i].name@;
            if i < front.len() {
                assert(front[i] == ms[i]);
            }
            crate::paths::lemma_text_lt_total(before, x);
            if crate::text::text_lt(n, x) {
                if crate::text::text_lt(x, before) {
                    crate::paths::lemma_text_lt_trans(n, x, before);
                    crate::paths::lemma_text_lt_irreflexive(before);
                }
            }
        }
        if crate::text::text_lt(last, before) {
            let j = choose|j: int| 0 <= j < front.len() && (#[trigger] front[j]).name@ == before;
            assert(ms[j].name@ == n);
        }
    }
}

proof fn lemma_two(ms: Seq<IrModule>, from: Seq<IrModule>, t: Trait, j: int, k: int)
    requires
        0 <= j < k < from.len(),
        crate::project::has_trait(ms, from[j], t),
        crate::project::has_trait(ms, from[k], t),
    ensures
        crate::project::having(ms, from, t).len() > 1,
    decreases from.len(),
{
    reveal(Seq::filter);
    let front = from.drop_last();
    assert(front[j] == from[j]);
    if k == from.len() - 1 {
        lemma_having(ms, front, t, j);
    } else {
        assert(front[k] == from[k]);
        lemma_two(ms, front, t, j, k);
    }
}

proof fn lemma_none(ms: Seq<IrModule>, from: Seq<IrModule>, t: Trait)
    requires
        forall|i: int| 0 <= i < from.len() ==> !crate::project::has_trait(ms, #[trigger] from[i], t),
    ensures
        crate::project::having(ms, from, t).len() == 0,
{
    lemma_having_only(ms, from, t);
    let all = crate::project::having(ms, from, t);
    if all.len() > 0 {
        assert(from.contains(all[0]));
    }
}

spec fn stands_as_root(ms: Seq<IrModule>, m: IrModule) -> bool {
    exists|k: int| #[trigger] root_at(ms, k) && ms[k] == m
}

proof fn lemma_roots(ms: Seq<IrModule>)
    ensures
        forall|k: int| root_at(ms, k) ==> roots_of(ms).contains(#[trigger] ms[k]),
        forall|i: int|
            0 <= i < roots_of(ms).len() ==> stands_as_root(ms, #[trigger] roots_of(ms)[i]),
{
    lemma_having_only(ms, ms, Trait::Root);
    assert forall|k: int| root_at(ms, k) implies roots_of(ms).contains(#[trigger] ms[k]) by {
        assert(crate::project::has_trait(ms, ms[k], Trait::Root));
        lemma_having(ms, ms, Trait::Root, k);
    }
    assert forall|i: int| 0 <= i < roots_of(ms).len() implies stands_as_root(
        ms,
        #[trigger] roots_of(ms)[i],
    ) by {
        let m = roots_of(ms)[i];
        assert(ms.contains(m));
        let k = choose|k: int| 0 <= k < ms.len() && ms[k] == m;
        assert(crate::project::has_trait(ms, m, Trait::Root));
        assert(root_at(ms, k));
    }
}

/// The trait marks a root of the project.
pub open spec fn marked(ms: Seq<IrModule>, t: Trait, k: int) -> bool {
    root_at(ms, k) && match t {
        Trait::Root => true,
        Trait::BenchName => crate::paths::bench_module(ms[k].name@),
        Trait::BenchFile => crate::paths::bench_path(ms[k].path@),
        Trait::Initial => ms[k].initial_blocks@.len() > 0,
        Trait::Instances => ms[k].instances@.len() > 0,
    }
}

/// The name is that of a marked root, and comes after those of all other marked roots.
pub open spec fn is_last_marked(ms: Seq<IrModule>, t: Trait, n: Seq<char>) -> bool {
    &&& exists|k: int| #[trigger] marked(ms, t, k) && ms[k].name@ == n
    &&& forall|k: int| #[trigger] marked(ms, t, k) ==> !crate::text::text_lt(n, ms[k].name@)
}

proof fn lemma_marked(ms: Seq<IrModule>, t: Trait)
    requires
        crate::project::having(ms, roots_of(ms), t).len() > 0,
    ensures
        is_last_marked(ms, t, crate::project::last_name(crate::project::having(ms, roots_of(ms), t))),
{
    let all = crate::project::having(ms, roots_of(ms), t);
    let n = crate::project::last_name(all);
    lemma_last_name(all);
    lemma_having_only(ms, roots_of(ms), t);
    lemma_roots(ms);
    let i = choose|i: int| 0 <= i < all.len() && (#[trigger] all[i]).name@ == n;
    assert(roots_of(ms).contains(all[i]));
    let j = choose|j: int| 0 <= j < roots_of(ms).len() && roots_of(ms)[j] == all[i];
    let k = choose|k: int| #[trigger] root_at(ms, k) && ms[k] == roots_of(ms)[j];
    assert(marked(ms, t, k));
    assert forall|k: int| #[trigger] marked(ms, t, k) implies !crate::text::text_lt(
        n,
        ms[k].name@,
    ) by {
        assert(roots_of(ms).contains(ms[k]));
        let j = choose|j: int| 0 <= j < roots_of(ms).len() && roots_of(ms)[j] == ms[k];
        lemma_having(ms, roots_of(ms), t, j);
        let i = choose|i: int| 0 <= i < all.len() && all[i] == ms[k];
        assert(all[i].name@ == ms[k].name@);
    }
}

proof fn lemma_unmarked(ms: Seq<IrModule>, t: Trait)
    requires
        forall|k: int| !#[trigger] marked(ms, t, k),
    ensures
        crate::project::having(ms, roots_of(ms), t).len() == 0,
{
    lemma_roots(ms);
    assert forall|i: int| 0 <= i < roots_of(ms).len() implies !crate::project::has_trait(
        ms,
        #[trigger] roots_of(ms)[i],
        t,
    ) by {
        let k = choose|k: int| #[trigger] root_at(ms, k) && ms[k] == roots_of(ms)[i];
        assert(!marked(ms, t, k));
    }
    lemma_none(ms, roots_of(ms), t);
}

proof fn lemma_marked_some(ms: Seq<IrModule>, t: Trait, k: int)
    requires
        marked(ms, t, k),
    ensures
        crate::project::having(ms, roots_of(ms), t).len() > 0,
{
    lemma_roots(ms);
    assert(roots_of(ms).contains(ms[k]));
    let j = choose|j: int| 0 <= j < roots_of(ms).len() && roots_of(ms)[j] == ms[k];
    lemma_having(ms, roots_of(ms), t, j);
}

proof fn lemma_single(ms: Seq<IrModule>, from: Seq<IrModule>, t: Trait, k: int)
    requires
        0 <= k < from.len(),
        crate::project::has_trait(ms, from[k], t),
        forall|i: int|
            0 <= i < from.len() && i != k ==> !crate::project::has_trait(ms, #[trigger] from[i], t),
    ensures
        crate::project::having(ms, from, t) == seq![from[k]],
    decreases from.len(),
{
    reveal(Seq::filter);
    let front = from.drop_last();
    assert forall|i: int| 0 <= i < front.len() implies front[i] == from[i] by {}
    if k == from.len() - 1 {
        lemma_none(ms, front, t);
    } else {
        assert(!crate::project::has_trait(ms, from[from.len() - 1], t));
        lemma_single(ms, front, t, k);
    }
    assert(crate::project::having(ms, from, t) =~= seq![from[k]]);
}

/// The top of a project without roots is none, and with a single root it is that one.
pub proof fn law_only_root_is_top(ms: Seq<IrModule>, k: int)
    ensures
        (forall|i: int| !#[trigger] root_at(ms, i)) ==> crate::project::top_among(ms, roots_of(ms))
            is None,
        root_at(ms, k) && (forall|i: int| #[trigger] root_at(ms, i) ==> i == k)
            ==> crate::project::top_among(ms, roots_of(ms)) == Some(ms[k].name@),
{
    if forall|i: int| !#[trigger] root_at(ms, i) {
        assert forall|i: int| 0 <= i < ms.len() implies !crate::project::has_trait(
            ms,
            #[trigger] ms[i],
            Trait::Root,
        ) by {
            assert(!root_at(ms, i));
        }
        lemma_none(ms, ms, Trait::Root);
    }
    if root_at(ms, k) && (forall|i: int| #[trigger] root_at(ms, i) ==> i == k) {
        assert forall|i: int| 0 <= i < ms.len() && i != k implies !crate::project::has_trait(
            ms,
            #[trigger] ms[i],
            Trait::Root,
        ) by {
            assert(!root_at(ms, i));
        }
        lemma_single(ms, ms, Trait::Root, k);
        assert(roots_of(ms)[0] == ms[k]);
    }
}

/// The modules that no instance names, in order.
pub open spec fn roots_of(ms: Seq<IrModule>) -> Seq<IrModule> {
    crate::project::having(ms, ms, Trait::Root)
}

/// Of several roots, test benches come first: those by their module's name, and where there
/// is none, those by their file's name; the last one by name is taken.
pub proof fn law_test_bench_is_top(ms: Seq<IrModule>, j: int, k: int, b: int)
    requires
        root_at(ms, j) && root_at(ms, k) && j < k,
    ensures
        marked(ms, Trait::BenchName, b) ==> crate::project::top_among(ms, roots_of(ms)) is Some
            && is_last_marked(
            ms,
            Trait::BenchName,
            crate::project::top_among(ms, roots_of(ms)).unwrap(),
        ),
        (forall|i: int| !#[trigger] marked(ms, Trait::BenchName, i)) && marked(
            ms,
            Trait::BenchFile,
            b,
        ) ==> crate::project::top_among(ms, roots_of(ms)) is Some && is_last_marked(
            ms,
            Trait::BenchFile,
            crate::project::top_among(ms, roots_of(ms)).unwrap(),
        ),
{
    lemma_two(ms, ms, Trait::Root, j, k);
    if marked(ms, Trait::BenchName, b) {
        lemma_marked_some(ms, Trait::BenchName, b);
        lemma_marked(ms, Trait::BenchName);
    } else if marked(ms, Trait::BenchFile, b) && forall|i: int|
        !#[trigger] marked(ms, Trait::BenchName, i) {
        lemma_unmarked(ms, Trait::BenchName);
        lemma_marked_some(ms, Trait::BenchFile, b);
        lemma_marked(ms, Trait::BenchFile);
    }
}

/// Of several roots without a test bench, the only one that runs something initially is
/// taken.
pub proof fn law_only_initial_is_top(ms: Seq<IrModule>, j: int, k: int, b: int)
    requires
        root_at(ms, j) && root_at(ms, k) && j < k,
        forall|i: int| !#[trigger] marked(ms, Trait::BenchName, i),
        forall|i: int| !#[trigger] marked(ms, Trait::BenchFile, i),
        marked(ms, Trait::Initial, b),
        forall|i: int| #[trigger] marked(ms, Trait::Initial, i) ==> i == b,
    ensures
        crate::project::top_among(ms, roots_of(ms)) == Some(ms[b].name@),
{
    lemma_two(ms, ms, Trait::Root, j, k);
    lemma_unmarked(ms, Trait::BenchName);
    lemma_unmarked(ms, Trait::BenchFile);
    assert forall|i: int| 0 <= i < ms.len() && i != b implies !(crate::project::has_trait(
        ms,
        #[trigger] ms[i],
        Trait::Root,
    ) && crate::project::has_trait(ms, ms[i], Trait::Initial)) by {
        assert(!marked(ms, Trait::Initial, i));
    }
    lemma_one_mark(ms, ms, Trait::Initial, b);
    lemma_marked_some(ms, Trait::Initial, b);
    lemma_marked(ms, Trait::Initial);
    let all = crate::project::having(ms, roots_of(ms), Trait::Initial);
    lemma_having_only(ms, roots_of(ms), Trait::Initial);
    lemma_roots(ms);
    assert(roots_of(ms).contains(all[0]));
    let r = choose|r: int| 0 <= r < roots_of(ms).len() && roots_of(ms)[r] == all[0];
    let i = choose|i: int| #[trigger] root_at(ms, i) && ms[i] == roots_of(ms)[r];
    assert(marked(ms, Trait::Initial, i));
}

/// Of several roots without a test bench, none of which runs anything initially, the only one
/// with instances is taken.
pub proof fn law_only_parent_is_top(ms: Seq<IrModule>, j: int, k: int, b: int)
    requires
        root_at(ms, j) && root_at(ms, k) && j < k,
        forall|i: int| !#[trigger] marked(ms, Trait::BenchName, i),
        forall|i: int| !#[trigger] marked(ms, Trait::BenchFile, i),
        forall|i: int| !#[trigger] marked(ms, Trait::Initial, i),
        marked(ms, Trait::Instances, b),
        forall|i: int| #[trigger] marked(ms, Trait::Instances, i) ==> i == b,
    ensures
        crate::project::top_among(ms, roots_of(ms)) == Some(ms[b].name@),
{
    lemma_two(ms, ms, Trait::Root, j, k);
    lemma_unmarked(ms, Trait::BenchName);
    lemma_unmarked(ms, Trait::BenchFile);
    lemma_unmarked(ms, Trait::Initial);
    assert forall|i: int| 0 <= i < ms.len() && i != b implies !(crate::project::has_trait(
        ms,
        #[trigger] ms[i],
        Trait::Root,
    ) && crate::project::has_trait(ms, ms[i], Trait::Instances)) by {
        assert(!marked(ms, Trait::Instances, i));
    }
    lemma_one_mark(ms, ms, Trait::Instances, b);
    lemma_marked_some(ms, Trait::Instances, b);
    lemma_marked(ms, Trait::Instances);
    let all = crate::project::having(ms, roots_of(ms), Trait::Instances);
    lemma_having_only(ms, roots_of(ms), Trait::Instances);
    lemma_roots(ms);
    assert(roots_of(ms).contains(all[0]));
    let r = choose|r: int| 0 <= r < roots_of(ms).len() && roots_of(ms)[r] == all[0];
    let i = choose|i: int| #[trigger] root_at(ms, i) && ms[i] == roots_of(ms)[r];
    assert(marked(ms, Trait::Instances, i));
}

/// At most one marked position leaves at most one marked root.
proof fn lemma_one_mark(ms: Seq<IrModule>, from: Seq<IrModule>, t: Trait, b: int)
    requires
        0 <= b,
        forall|i: int|
            0 <= i < from.len() && i != b ==> !(crate::project::has_trait(
                ms,
                #[trigger] from[i],
                Trait::Root,
            ) && crate::project::has_trait(ms, from[i], t)),
    ensures
        crate::project::having(ms, crate::project::having(ms, from, Trait::Root), t).len() <= 1,
        b >= from.len() ==> crate::project::having(
            ms,
            crate::project::having(ms, from, Trait::Root),
            t,
        ).len() == 0,
    decreases from.len(),
{
    reveal(Seq::filter);
    if from.len() > 0 {
        let front = from.drop_last();
        assert forall|i: int| 0 <= i < front.len() implies front[i] == from[i] by {}
        let some = crate::project::having(ms, front, Trait::Root);
        let all = crate::project::having(ms, from, Trait::Root);
        lemma_one_mark(ms, front, t, b);
        if crate::project::has_trait(ms, from.last(), Trait::Root) {
            assert(all.drop_last() =~= some);
            assert(all.last() == from.last());
            assert(from.last() == from[from.len() - 1]);
        } else {
            assert(all =~= some);
        }
    }
}

/// Of several roots that nothing tells apart, the last one by name is taken.
pub proof fn law_last_root_is_top(ms: Seq<IrModule>, j: int, k: int)
    requires
        root_at(ms, j) && root_at(ms, k) && j < k,
        forall|i: int| !#[trigger] marked(ms, Trait::BenchName, i),
        forall|i: int| !#[trigger] marked(ms, Trait::BenchFile, i),
        forall|i: int| !#[trigger] marked(ms, Trait::Initial, i),
        forall|i: int| !#[trigger] marked(ms, Trait::Instances, i),
    ensures
        crate::project::top_among(ms, roots_of(ms)) matches Some(n) && (forall|i: int|
            #[trigger] root_at(ms, i) ==> !crate::text::text_lt(n, ms[i].name@)),
{
    lemma_two(ms, ms, Trait::Root, j, k);
    lemma_unmarked(ms, Trait::BenchName);
    lemma_unmarked(ms, Trait::BenchFile);
    lemma_unmarked(ms, Trait::Initial);
    lemma_unmarked(ms, Trait::Instances);
    lemma_last_name(roots_of(ms));
    lemma_roots(ms);
    let n = crate::project::last_name(roots_of(ms));
    assert forall|i: int| #[trigger] root_at(ms, i) implies !crate::text::text_lt(
        n,
        ms[i].name@,
    ) by {
        assert(roots_of(ms).contains(ms[i]));
        let r = choose|r: int| 0 <= r < roots_of(ms).len() && roots_of(ms)[r] == ms[i];
        assert(roots_of(ms)[r].name@ == ms[i].name@);
    }
}

/// Names are ordered by their first different character, and a name before its extensions.
pub proof fn law_alphabetical_order(p: Seq<char>, x: Seq<char>, y: Seq<char>)
    ensures
        x.len() > 0 && y.len() > 0 && x[0] < y[0] ==> crate::text::text_lt(p + x, p + y)
            && !crate::text::text_lt(p + y, p + x),
        y.len() > 0 ==> crate::text::text_lt(p, p + y) && !crate::text::text_lt(p + y, p),
        !crate::text::text_lt(p, p),
    decreases p.len(),
{
    if p.len() > 0 {
        law_alphabetical_order(p.drop_first(), x, y);
        assert((p + x).drop_first() =~= p.drop_first() + x);
        assert((p + y).drop_first() =~= p.drop_first() + y);
    } else {
        assert(p + x =~= x);
        assert(p + y =~= y);
    }
}

/// Paths are compared part by part: a name behind a directory is one more part, however many
/// slashes stand between them, and a point alone is none.
pub proof fn law_path_parts(dir: Seq<char>, name: Seq<char>)
    requires
        dir.len() > 0,
        name.len() > 0,
        forall|k: int| 0 <= k < name.len() ==> #[trigger] name[k] != '/',
        name != seq!['.'] && name != seq!['.', '.'],
    ensures
        crate::paths::path_parts(dir + seq!['/'] + name) == crate::paths::path_parts(dir).push(
            (3u8, name),
        ),
        crate::paths::path_parts(dir + seq!['/', '/'] + name) == crate::paths::path_parts(dir).push(
            (3u8, name),
        ),
        crate::paths::path_parts(dir + seq!['/', '.']) == crate::paths::path_parts(dir),
        crate::paths::path_parts(name) == seq![(3u8, name)],
{
    let p = dir + seq!['/'] + name;
    lemma_part_start(dir, '/', name, name.len() as int);
    assert(p.subrange(dir.len() as int + 1, p.len() as int) =~= name);
    let slashed = dir + seq!['/'];
    assert(p.take(dir.len() as int + 1) =~= slashed);
    assert(slashed.drop_last() =~= dir);
    assert(p.last() == name[name.len() - 1]);
    assert(crate::paths::path_parts(slashed) == crate::paths::path_parts(dir));
    let q = dir + seq!['/', '/'] + name;
    assert(q =~= slashed + seq!['/'] + name);
    lemma_part_start(slashed, '/', name, name.len() as int);
    assert(q.subrange(dir.len() as int + 2, q.len() as int) =~= name);
    let twice = slashed + seq!['/'];
    assert(q.take(dir.len() as int + 2) =~= twice);
    assert(twice.drop_last() =~= slashed);
    assert(q.last() == name[name.len() - 1]);
    assert(crate::paths::path_parts(twice) == crate::paths::path_parts(slashed));
    let r = dir + seq!['/', '.'];
    let dot = seq!['.'];
    assert(r =~= dir + seq!['/'] + dot);
    lemma_part_start(dir, '/', dot, 1);
    assert(r.subrange(dir.len() as int + 1, r.len() as int) =~= dot);
    assert(r.take(dir.len() as int + 1) =~= slashed);
    assert(r.last() == '.');
    lemma_part_start_none(name, '/', name.len() as int);
    assert(name.last() == name[name.len() - 1]);
    assert(name.subrange(0, name.len() as int) =~= name);
    assert(Seq::<(u8, Seq<char>)>::empty().push((3u8, name)) =~= seq![(3u8, name)]);
}

/// Paths are ordered by their first different part, and a directory before what is in it.
pub proof fn law_path_order(
    p: Seq<(u8, Seq<char>)>,
    x: Seq<char>,
    y: Seq<char>,
    rest: Seq<(u8, Seq<char>)>,
    more: Seq<(u8, Seq<char>)>,
)
    ensures
        crate::text::text_lt(x, y) ==> crate::paths::parts_lt(
            p + (seq![(3u8, x)] + rest),
            p + (seq![(3u8, y)] + more),
        ),
        crate::paths::parts_lt(p, p + (seq![(3u8, x)] + rest)),
        !crate::paths::parts_lt(p, p),
    decreases p.len(),
{
    let (a, b) = (seq![(3u8, x)] + rest, seq![(3u8, y)] + more);
    if p.len() > 0 {
        law_path_order(p.drop_first(), x, y, rest, more);
        assert((p + a).drop_first() =~= p.drop_first() + a);
        assert((p + b).drop_first() =~= p.drop_first() + b);
    } else {
        assert(p + a =~= a);
        assert(p + b =~= b);
        if crate::text::text_lt(x, y) {
            crate::paths::lemma_text_lt_irreflexive(x);
        }
    }
}

/// Test benches come before all other files, and otherwise paths are in order.
pub proof fn law_source_order(a: Seq<char>, b: Seq<char>)
    ensures
        crate::paths::bench_path(a) && !crate::paths::bench_path(b) ==> crate::paths::source_before(
            a,
            b,
        ) && !crate::paths::source_before(b, a),
        crate::paths::bench_path(a) == crate::paths::bench_path(b) ==> (
        crate::paths::source_before(a, b) <==> crate::paths::parts_lt(
            crate::paths::path_parts(a),
            crate::paths::path_parts(b),
        )),
{
}

/// A plain name holds no slash of either kind.
pub proof fn law_plain_names(s: Seq<char>, i: int)
    ensures
        0 <= i < s.len() && (s[i] == '/' || s[i] == '\\') ==> !crate::sim_commands::is_plain_name(s)
            && !crate::simulate::is_entry_name(s),
        (forall|k: int| 0 <= k < s.len() ==> #[trigger] s[k] != '/' && s[k] != '\\')
            ==> crate::sim_commands::is_plain_name(s),
        s.len() == 0 ==> !crate::simulate::is_entry_name(s),
{
    if 0 <= i < s.len() && (s[i] == '/' || s[i] == '\\') {
        assert(s.contains(s[i]));
    }
}

/// The modules and the diagnostics of a project are those of its files, one file after the
/// other.
pub proof fn law_files_in_order(a: Seq<crate::SourceFile>, b: Seq<crate::SourceFile>)
    ensures
        crate::project::index_entries(a + b) == crate::project::index_entries(a)
            + crate::project::index_entries(b),
        crate::semantic::project_summary(a + b).0 == crate::semantic::project_summary(a).0
            + crate::semantic::project_summary(b).0,
        crate::semantic::project_summary(a + b).1 == crate::semantic::project_summary(a).1
            + crate::semantic::project_summary(b).1,
    decreases b.len(),
{
    if b.len() == 0 {
        assert(a + b =~= a);
        assert(crate::project::index_entries(a) + crate::project::index_entries(b)
            =~= crate::project::index_entries(a));
        assert(crate::semantic::project_summary(a).0 + crate::semantic::project_summary(b).0
            =~= crate::semantic::project_summary(a).0);
        assert(crate::semantic::project_summary(a).1 + crate::semantic::project_summary(b).1
            =~= crate::semantic::project_summary(a).1);
    } else {
        let front = b.drop_last();
        law_files_in_order(a, front);
        assert((a + b).drop_last() =~= a + front);
        assert((a + b).last() == b.last());
        assert(crate::project::index_entries(a + b) =~= crate::project::index_entries(a)
            + crate::project::index_entries(b));
        assert(crate::semantic::project_summary(a + b).0 =~= crate::semantic::project_summary(a).0
            + crate::semantic::project_summary(b).0);
        assert(crate::semantic::project_summary(a + b).1 =~= crate::semantic::project_summary(a).1
            + crate::semantic::project_summary(b).1);
    }
}

/// A single file gives its modules in the order of its text, and its diagnostics.
pub proof fn law_one_file(f: crate::SourceFile, i: int)
    ensures
        ({
            let (modules, diags) = crate::parser::module::parsed(
                crate::source_input(f.path@, f.content@),
            );
            let entries = crate::project::index_entries(seq![f]);
            let summary = crate::semantic::project_summary(seq![f]);
            &&& entries.len() == modules.len() && summary.0.len() == modules.len()
            &&& summary.1 == diags
            &&& 0 <= i < modules.len() ==> entries[i] == (modules[i].name, modules[i].path)
                && summary.0[i].name == modules[i].name && summary.0[i].path == modules[i].path
                && summary.0[i].ports == modules[i].ports
        }),
{
    let s = seq![f];
    assert(s.drop_last() =~= Seq::empty());
    reveal_with_fuel(crate::project::index_entries, 2);
    reveal_with_fuel(crate::semantic::project_summary, 2);
    let (modules, diags) = crate::parser::module::parsed(crate::source_input(f.path@, f.content@));
    assert(crate::semantic::project_summary(s).1 =~= diags);
}

/// Of the files that are found, exactly the sources are listed.
pub proof fn law_listed_sources(found: Seq<String>, k: int)
    requires
        0 <= k < found.len(),
    ensures
        crate::paths::names_source(found[k]@) ==> crate::paths::sources_of(found).contains(
            found[k],
        ),
        crate::paths::sources_of(found).contains(found[k]) ==> crate::paths::names_source(
            found[k]@,
        ),
{
    let p = |x: String| crate::paths::names_source(x@);
    lemma_filtered(found, p, k);
    if p(found[k]) {
        assert(crate::paths::sources_of(found).contains(found[k]));
    }
}

proof fn lemma_filtered(s: Seq<String>, p: spec_fn(String) -> bool, k: int)
    requires
        0 <= k < s.len(),
    ensures
        p(s[k]) ==> s.filter(p).contains(s[k]),
        forall|x: String| #[trigger] s.filter(p).contains(x) ==> p(x),
    decreases s.len(),
{
    reveal(Seq::filter);
    let front = s.drop_last();
    let (f, g) = (front.filter(p), s.filter(p));
    if front.len() > 0 {
        lemma_filtered(
            front,
            p,
            if k < front.len() {
                k
            } else {
                0
            },
        );
    }
    if p(s[k]) {
        if k < front.len() {
            assert(front[k] == s[k]);
            let j = choose|j: int| 0 <= j < f.len() && f[j] == s[k];
            assert(g[j] == s[k]);
        } else {
            assert(g[g.len() - 1] == s[k]);
        }
    }
    assert forall|x: String| #[trigger] g.contains(x) implies p(x) by {
        let j = choose|j: int| 0 <= j < g.len() && g[j] == x;
        if j < f.len() {
            assert(f[j] == x);
            assert(f.contains(x));
        }
    }
}

/// A diagnostic is shown as its path, line, column, severity and message, with colons between
/// them.
pub proof fn law_diagnostic_line(d: crate::DiagM)
    requires
        d.path.len() > 0,
    ensures
        ({
            let word = match d.severity {
                crate::Severity::Error => seq!['e', 'r', 'r', 'o', 'r'],
                crate::Severity::Warning => seq!['w', 'a', 'r', 'n', 'i', 'n', 'g'],
                crate::Severity::Info => seq!['i', 'n', 'f', 'o'],
            };
            crate::project::diagnostic_line(d) == d.path + seq![':']
                + crate::number::decimal_digits(d.line as nat) + seq![':']
                + crate::number::decimal_digits(d.column as nat) + seq![':', ' '] + word + seq![
                ':',
                ' ',
            ] + d.message
        }),
{
    reveal_strlit(":");
    reveal_strlit(": ");
    reveal_strlit("error");
    reveal_strlit("warning");
    reveal_strlit("info");
    assert(":"@ =~= seq![':']);
    assert(": "@ =~= seq![':', ' ']);
    assert("error"@ =~= seq!['e', 'r', 'r', 'o', 'r']);
    assert("warning"@ =~= seq!['w', 'a', 'r', 'n', 'i', 'n', 'g']);
    assert("info"@ =~= seq!['i', 'n', 'f', 'o']);
}

} // verus!
