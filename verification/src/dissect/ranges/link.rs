//! The link layers, ARP and unclaimed data.

use vstd::prelude::*;

use super::names::link_names;
use super::{keeping_inside, nothing_written, ready, within};
use crate::dissect::ctx::Model;
use crate::dissect::proto::{arp, data_layer, eth, llc, null, vlan};

verus! {

pub proof fn data_stays_inside(d: Seq<u8>, m: Model, n: int)
    requires
        ready(d, m, n),
    ensures
        within(m, data_layer(d, m), n),
{
    broadcast use keeping_inside;

    link_names();
    nothing_written(m, n);
}

pub proof fn arp_stays_inside(d: Seq<u8>, m: Model, n: int)
    requires
        ready(d, m, n),
    ensures
        within(m, arp::layer(d, m).0, n),
{
    broadcast use keeping_inside;

    link_names();
    nothing_written(m, n);
}

pub proof fn eth_stays_inside(d: Seq<u8>, m: Model, n: int)
    requires
        ready(d, m, n),
    ensures
        within(m, eth::layer(d, m).0, n),
{
    broadcast use keeping_inside;

    link_names();
    nothing_written(m, n);
}

pub proof fn llc_stays_inside(d: Seq<u8>, m: Model, n: int)
    requires
        ready(d, m, n),
    ensures
        within(m, llc::layer(d, m).0, n),
{
    broadcast use keeping_inside;

    link_names();
    nothing_written(m, n);
}

pub proof fn null_stays_inside(d: Seq<u8>, m: Model, n: int)
    requires
        ready(d, m, n),
    ensures
        within(m, null::layer(d, m).0, n),
{
    broadcast use keeping_inside;

    link_names();
    nothing_written(m, n);
}

pub proof fn vlan_stays_inside(d: Seq<u8>, m: Model, n: int)
    requires
        ready(d, m, n),
    ensures
        within(m, vlan::layer(d, m).0, n),
{
    broadcast use keeping_inside;

    link_names();
    nothing_written(m, n);
}

} // verus!
