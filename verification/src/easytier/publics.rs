//! The public relay nodes a room's overlay network uses.
use vstd::prelude::*;
use crate::context::strings_view;
use crate::room::Room;
use crate::text::owned;

verus! {

/// The public nodes always added after the requested ones.
pub open spec fn default_public_nodes() -> Seq<Seq<char>> {
    seq![
        "tcp://public.easytier.top:11010"@,
        "tcp://public2.easytier.cn:54321"@,
        "https://etnode.zkitefly.eu.org/node1"@,
        "https://etnode.zkitefly.eu.org/node2"@,
    ]
}

/// The public nodes of a room: the requested ones, then the defaults.
pub fn fetch_public_nodes(room: &Room, external_nodes: Vec<String>) -> (r: Vec<String>)
    ensures
        strings_view(r@) == strings_view(external_nodes@) + default_public_nodes(),
{
    let mut nodes = external_nodes;
    let ghost before = strings_view(nodes@);
    nodes.push(owned("tcp://public.easytier.top:11010"));
    nodes.push(owned("tcp://public2.easytier.cn:54321"));
    nodes.push(owned("https://etnode.zkitefly.eu.org/node1"));
    nodes.push(owned("https://etnode.zkitefly.eu.org/node2"));
    assert(strings_view(nodes@) =~= before + default_public_nodes());
    nodes
}

/// The nodes a flow asks for: those of the request, then those of the
/// configuration, then the defaults.
pub fn flow_public_nodes(room: &Room, requested: Vec<String>, configured: &Vec<String>) -> (r: Vec<
    String,
>)
    ensures
        strings_view(r@) == strings_view(requested@) + strings_view(configured@)
            + default_public_nodes(),
{
    let mut nodes = requested;
    let ghost before = nodes@;
    let mut i: usize = 0;
    while i < configured.len()
        invariant
            0 <= i <= configured.len(),
            nodes@ == before + configured@.take(i as int),
        decreases configured.len() - i,
    {
        nodes.push(configured[i].clone());
        i += 1;
        assert(nodes@ =~= before + configured@.take(i as int));
    }
    assert(configured@.take(i as int) =~= configured@);
    proof {
        crate::context::lemma_strings_view_add(before, configured@);
    }
    fetch_public_nodes(room, nodes)
}

} // verus!
