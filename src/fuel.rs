//! Fuel needed to launch a module of a given mass.

use vstd::prelude::*;

verus! {

/// The fuel for a mass alone: a third of it, rounded down, less two, and
/// never below zero.
pub open spec fn fuel_for(mass: nat) -> nat {
    if mass >= 6 {
        (mass / 3 - 2) as nat
    } else {
        0
    }
}

/// The fuel for a mass together with the fuel for that fuel, and so on.
pub open spec fn total_fuel_for(mass: nat) -> nat
    decreases mass,
{
    if mass >= 6 {
        fuel_for(mass) + total_fuel_for(fuel_for(mass))
    } else {
        0
    }
}

/// The fuel that carries its own fuel never weighs more than the mass.
pub proof fn lemma_total_fuel_bounded(mass: nat)
    ensures
        total_fuel_for(mass) <= mass,
    decreases mass,
{
    if mass >= 6 {
        lemma_total_fuel_bounded(fuel_for(mass));
    }
}

/// The fuel for a mass alone.
pub fn calculate_fuel_requirement(mass: u64) -> (r: u64)
    ensures
        r == fuel_for(mass as nat),
{
    if mass >= 6 {
        (mass / 3) - 2
    } else {
        0
    }
}

/// The fuel for a mass, counting the fuel that its fuel needs in turn.
pub fn calculate_total_fuel_requirement(mass: u64) -> (r: u64)
    ensures
        r == total_fuel_for(mass as nat),
    decreases mass,
{
    if mass >= 6 {
        let fuel = (mass / 3) - 2;
        let more = calculate_total_fuel_requirement(fuel);
        proof {
            lemma_total_fuel_bounded(fuel as nat);
        }
        fuel + more
    } else {
        0
    }
}

} // verus!
