//! The link layers, ARP and unclaimed data.

use vstd::prelude::*;

use super::ops::keeping_alike;
use super::{agree, alike, start_alike, Bases};
use crate::dissect::ctx::Model;
use crate::dissect::proto::{arp, data_layer, eth, llc, null, vlan};

verus! {

pub proof fn data_agrees(bases: Bases, d: Seq<u8>, m1: Model, m2: Model)
    requires
        start_alike(bases, m1, m2),
    ensures
        alike(bases, data_layer(d, m1), data_layer(d, m2)),
        data_layer(d, m1).trace.depth == m1.trace.depth,
{
    broadcast use keeping_alike;

}

pub proof fn arp_agrees(bases: Bases, d: Seq<u8>, m1: Model, m2: Model)
    requires
        start_alike(bases, m1, m2),
    ensures
        agree(bases, m1.trace.depth, arp::layer(d, m1), arp::layer(d, m2)),
{
    broadcast use keeping_alike;

}

pub proof fn eth_agrees(bases: Bases, d: Seq<u8>, m1: Model, m2: Model)
    requires
        start_alike(bases, m1, m2),
    ensures
        agree(bases, m1.trace.depth, eth::layer(d, m1), eth::layer(d, m2)),
{
    broadcast use keeping_alike;

}

pub proof fn llc_agrees(bases: Bases, d: Seq<u8>, m1: Model, m2: Model)
    requires
        start_alike(bases, m1, m2),
    ensures
        agree(bases, m1.trace.depth, llc::layer(d, m1), llc::layer(d, m2)),
{
    broadcast use keeping_alike;

}

pub proof fn null_agrees(bases: Bases, d: Seq<u8>, m1: Model, m2: Model)
    requires
        start_alike(bases, m1, m2),
    ensures
        agree(bases, m1.trace.depth, null::layer(d, m1), null::layer(d, m2)),
{
    broadcast use keeping_alike;

}

pub proof fn vlan_agrees(bases: Bases, d: Seq<u8>, m1: Model, m2: Model)
    requires
        start_alike(bases, m1, m2),
    ensures
        agree(bases, m1.trace.depth, vlan::layer(d, m1), vlan::layer(d, m2)),
{
    broadcast use keeping_alike;

}

} // verus!
