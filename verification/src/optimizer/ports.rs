//! Positional port connections turned into named ones.
use crate::ir::{IrInstance, IrModule, IrPortConn, IrProject};
use crate::text::concat_str;
use crate::Port;
use vstd::prelude::*;

verus! {

/// Every positional connection of the instance has a port at its position.
pub open spec fn positions_fit(ports: Seq<Port>, conns: Seq<IrPortConn>) -> bool {
    forall|i: int|
        0 <= i < conns.len() && (#[trigger] conns[i]).port_name is None ==> i < ports.len()
}

/// The instance is of an unknown module, or its positional connections fit.
pub open spec fn instance_fits(mods: Seq<IrModule>, inst: IrInstance) -> bool {
    match super::inline::find_module(mods, inst.module_name@) {
        Some(c) => positions_fit(mods[c].ports@, inst.connections@),
        None => true,
    }
}

/// `out` is the connection at position `i`, with the name of the port at that position
/// where it had none.
pub open spec fn named_conn(
    ports: Seq<Port>,
    i: int,
    conn: IrPortConn,
    out: IrPortConn,
) -> bool {
    match conn.port_name {
        Some(_) => out == conn,
        None => out == (IrPortConn { port_name: out.port_name, ..conn }) && (out.port_name matches Some(
            n,
        ) && n@ == ports[i].name@),
    }
}

/// `out` is the instance with all its connections named; one of an unknown module stays
/// as it is.
pub open spec fn named_instance(mods: Seq<IrModule>, inst: IrInstance, out: IrInstance) -> bool {
    match super::inline::find_module(mods, inst.module_name@) {
        Some(c) => out == (IrInstance { connections: out.connections, ..inst })
            && out.connections@.len() == inst.connections@.len() && (forall|i: int|
            0 <= i < out.connections@.len() ==> named_conn(
                mods[c].ports@,
                i,
                inst.connections@[i],
                #[trigger] out.connections@[i],
            )),
        None => out == inst,
    }
}

/// `out` is the module with the connections of all its instances named.
pub open spec fn named_module(mods: Seq<IrModule>, m: IrModule, out: IrModule) -> bool {
    &&& out == (IrModule { instances: out.instances, ..m })
    &&& out.instances@.len() == m.instances@.len()
    &&& forall|i: int|
        0 <= i < out.instances@.len() ==> named_instance(
            mods,
            m.instances@[i],
            #[trigger] out.instances@[i],
        )
}

/// All instances of all modules fit.
pub open spec fn all_fit(mods: Seq<IrModule>) -> bool {
    forall|m: int, i: int|
        0 <= m < mods.len() && 0 <= i < mods[m].instances@.len() ==> instance_fits(
            mods,
            #[trigger] mods[m].instances@[i],
        )
}

fn find_child(mods: &Vec<IrModule>, inst: &IrInstance) -> (r: Option<usize>)
    ensures
        match r {
            Some(i) => i < mods@.len() && super::inline::find_module(mods@, inst.module_name@)
                == Some(i as int),
            None => super::inline::find_module(mods@, inst.module_name@) is None,
        },
{
    let mut n: usize = mods.len();
    assert(mods@.take(n as int) == mods@);
    while n > 0
        invariant
            n <= mods@.len(),
            super::inline::find_module(mods@, inst.module_name@) == super::inline::find_module(
                mods@.take(n as int),
                inst.module_name@,
            ),
        decreases n,
    {
        assert(mods@.take(n as int).last() == mods@[n - 1]);
        assert(mods@.take(n as int).drop_last() == mods@.take(n - 1));
        if mods[n - 1].name == inst.module_name {
            return Some(n - 1);
        }
        n = n - 1;
    }
    None
}

fn check_positions(ports: &Vec<Port>, conns: &Vec<IrPortConn>) -> (r: bool)
    ensures
        r == positions_fit(ports@, conns@),
{
    let mut i: usize = ports.len();
    while i < conns.len()
        invariant
            ports@.len() <= i,
            i <= conns@.len() || i == ports@.len(),
            forall|j: int|
                0 <= j < conns@.len() && j < i && (#[trigger] conns@[j]).port_name is None ==> j
                    < ports@.len(),
        decreases conns@.len() - i,
    {
        if conns[i].port_name.is_none() {
            return false;
        }
        i = i + 1;
    }
    true
}

fn named_connections(ports: &Vec<Port>, conns: &Vec<IrPortConn>) -> (names: Vec<Option<String>>)
    requires
        positions_fit(ports@, conns@),
    ensures
        names@.len() == conns@.len(),
        forall|i: int|
            0 <= i < names@.len() ==> match (#[trigger] names@[i]) {
                Some(n) => conns@[i].port_name is None && n@ == ports@[i].name@,
                None => conns@[i].port_name is Some,
            },
{
    let mut names: Vec<Option<String>> = Vec::new();
    let mut i: usize = 0;
    while i < conns.len()
        invariant
            i <= conns@.len(),
            names@.len() == i,
            positions_fit(ports@, conns@),
            forall|j: int|
                0 <= j < i ==> match (#[trigger] names@[j]) {
                    Some(n) => conns@[j].port_name is None && n@ == ports@[j].name@,
                    None => conns@[j].port_name is Some,
                },
        decreases conns@.len() - i,
    {
        if conns[i].port_name.is_none() {
            assert(conns@[i as int].port_name is None);
            names.push(Some(ports[i].name.clone()));
        } else {
            names.push(None);
        }
        i = i + 1;
    }
    names
}

fn misfit_message(inst: &IrInstance) -> (r: String)
    ensures
        r@ == misfit_text(*inst),
{
    concat_str(
        concat_str(
            concat_str(
                "too many positional connections on instance ",
                inst.instance_name.as_str(),
            ).as_str(),
            " of module ",
        ).as_str(),
        inst.module_name.as_str(),
    )
}

/// Text of the error for an instance with more positional connections than ports.
pub open spec fn misfit_text(inst: IrInstance) -> Seq<char> {
    "too many positional connections on instance "@ + inst.instance_name@ + " of module "@
        + inst.module_name@
}

/// Gives every positional connection the name of the port at its position. Fails, and
/// changes nothing, where an instance has more positional connections than its module has
/// ports.
pub fn resolve_instance_port_connections(project: &mut IrProject) -> (r: Result<(), String>)
    ensures
        match r {
            Ok(_) => all_fit(old(project).modules@) && *final(project) == (IrProject {
                modules: final(project).modules,
                ..*old(project)
            }) && final(project).modules@.len() == old(project).modules@.len() && (forall|i: int|
                0 <= i < final(project).modules@.len() ==> named_module(
                    old(project).modules@,
                    old(project).modules@[i],
                    #[trigger] final(project).modules@[i],
                )),
            Err(msg) => *final(project) == *old(project) && exists|m: int, i: int|
                0 <= m < old(project).modules@.len() && 0 <= i < old(
                    project,
                ).modules@[m].instances@.len() && !instance_fits(
                    old(project).modules@,
                    #[trigger] old(project).modules@[m].instances@[i],
                ) && msg@ == misfit_text(old(project).modules@[m].instances@[i]),
        },
{
    let ghost mods = project.modules@;
    let n: usize = project.modules.len();
    // Names to fill in, by module, instance and connection.
    let mut table: Vec<Vec<Option<Vec<Option<String>>>>> = Vec::new();
    let mut m: usize = 0;
    while m < n
        invariant
            m <= n,
            n == mods.len(),
            mods == old(project).modules@,
            *project == *old(project),
            table@.len() == m,
            forall|a: int, b: int|
                0 <= a < m && 0 <= b < mods[a].instances@.len() ==> instance_fits(
                    mods,
                    #[trigger] mods[a].instances@[b],
                ),
            forall|a: int| 0 <= a < m ==> rows_for(mods, mods[a], #[trigger] table@[a]@),
        decreases n - m,
    {
        let mut rows: Vec<Option<Vec<Option<String>>>> = Vec::new();
        let insts = &project.modules[m].instances;
        let mut i: usize = 0;
        while i < insts.len()
            invariant
                i <= insts@.len(),
                m < n,
                n == mods.len(),
                mods == old(project).modules@,
                *project == *old(project),
                *insts == mods[m as int].instances,
                rows@.len() == i,
                forall|b: int| 0 <= b < i ==> instance_fits(mods, #[trigger] insts@[b]),
                forall|b: int| 0 <= b < i ==> row_for(mods, insts@[b], #[trigger] rows@[b]),
            decreases insts@.len() - i,
        {
            let inst = &insts[i];
            match find_child(&project.modules, inst) {
                Some(c) => {
                    let ports = &project.modules[c].ports;
                    if !check_positions(ports, &inst.connections) {
                        assert(!instance_fits(mods, mods[m as int].instances@[i as int]));
                        return Err(misfit_message(inst));
                    }
                    rows.push(Some(named_connections(ports, &inst.connections)));
                },
                None => {
                    rows.push(None);
                },
            }
            i = i + 1;
        }
        assert forall|a: int, b: int|
            0 <= a < m + 1 && 0 <= b < mods[a].instances@.len() implies instance_fits(
            mods,
            #[trigger] mods[a].instances@[b],
        ) by {
            if a == m {
                assert(instance_fits(mods, insts@[b]));
            }
        }
        table.push(rows);
        m = m + 1;
    }
    let mut k: usize = 0;
    while k < n
        invariant
            k <= n,
            n == mods.len(),
            mods == old(project).modules@,
            project.modules@.len() == n,
            table@.len() == n,
            *project == (IrProject { modules: project.modules, ..*old(project) }),
            forall|a: int| 0 <= a < n ==> rows_for(mods, mods[a], #[trigger] table@[a]@),
            forall|a: int| k <= a < n ==> #[trigger] project.modules@[a] == mods[a],
            forall|a: int|
                0 <= a < k ==> named_module(mods, mods[a], #[trigger] project.modules@[a]),
        decreases n - k,
    {
        assert(rows_for(mods, mods[k as int], table@[k as int]@));
        assert(project.modules@[k as int] == mods[k as int]);
        name_module(&mut project.modules[k], &table[k], Ghost(mods));
        k = k + 1;
    }
    Ok(())
}

/// The names to fill in for one instance; `None` where its module is unknown.
spec fn row_for(mods: Seq<IrModule>, inst: IrInstance, row: Option<Vec<Option<String>>>) -> bool {
    match super::inline::find_module(mods, inst.module_name@) {
        Some(c) => row matches Some(names) && names@.len() == inst.connections@.len() && forall|
            i: int,
        |
            0 <= i < names@.len() ==> match (#[trigger] names@[i]) {
                Some(n) => inst.connections@[i].port_name is None && n@ == mods[c].ports@[i].name@,
                None => inst.connections@[i].port_name is Some,
            },
        None => row is None,
    }
}

spec fn rows_for(
    mods: Seq<IrModule>,
    m: IrModule,
    rows: Seq<Option<Vec<Option<String>>>>,
) -> bool {
    rows.len() == m.instances@.len() && forall|i: int|
        0 <= i < rows.len() ==> row_for(mods, m.instances@[i], #[trigger] rows[i])
}

fn name_module(
    m: &mut IrModule,
    rows: &Vec<Option<Vec<Option<String>>>>,
    Ghost(mods): Ghost<Seq<IrModule>>,
)
    requires
        rows_for(mods, *old(m), rows@),
    ensures
        named_module(mods, *old(m), *final(m)),
{
    let ghost m0 = *m;
    let mut i: usize = 0;
    while i < rows.len()
        invariant
            i <= rows@.len(),
            rows_for(mods, m0, rows@),
            *m == (IrModule { instances: m.instances, ..m0 }),
            m.instances@.len() == m0.instances@.len(),
            forall|j: int| i <= j < rows@.len() ==> #[trigger] m.instances@[j] == m0.instances@[j],
            forall|j: int|
                0 <= j < i ==> named_instance(mods, m0.instances@[j], #[trigger] m.instances@[j]),
        decreases rows@.len() - i,
    {
        assert(row_for(mods, m0.instances@[i as int], rows@[i as int]));
        assert(m.instances@[i as int] == m0.instances@[i as int]);
        if let Some(names) = &rows[i] {
            name_instance(&mut m.instances[i], names, Ghost(mods));
        }
        i = i + 1;
    }
}

fn name_instance(
    inst: &mut IrInstance,
    names: &Vec<Option<String>>,
    Ghost(mods): Ghost<Seq<IrModule>>,
)
    requires
        row_for(mods, *old(inst), Some(*names)),
    ensures
        named_instance(mods, *old(inst), *final(inst)),
{
    let ghost i0 = *inst;
    let ghost ports = mods[super::inline::find_module(mods, i0.module_name@)->0].ports@;
    let mut i: usize = 0;
    while i < names.len()
        invariant
            i <= names@.len(),
            row_for(mods, i0, Some(*names)),
            super::inline::find_module(mods, i0.module_name@) is Some,
            ports == mods[super::inline::find_module(mods, i0.module_name@)->0].ports@,
            *inst == (IrInstance { connections: inst.connections, ..i0 }),
            inst.connections@.len() == i0.connections@.len(),
            names@.len() == i0.connections@.len(),
            forall|j: int|
                i <= j < names@.len() ==> #[trigger] inst.connections@[j] == i0.connections@[j],
            forall|j: int|
                0 <= j < i ==> named_conn(
                    ports,
                    j,
                    i0.connections@[j],
                    #[trigger] inst.connections@[j],
                ),
        decreases names@.len() - i,
    {
        assert(inst.connections@[i as int] == i0.connections@[i as int]);
        assert(match names@[i as int] {
            Some(n) => i0.connections@[i as int].port_name is None && n@ == ports[i as int].name@,
            None => i0.connections@[i as int].port_name is Some,
        });
        if let Some(name) = &names[i] {
            inst.connections[i].port_name = Some(name.clone());
        }
        i = i + 1;
    }
}

} // verus!
