//! Weights and volumes held as integer counts of a canonical unit, tagged with
//! the unit system they are shown in.
use std::marker::PhantomData;
use vstd::prelude::*;
use crate::units::{quantity_outcome, read_quantity, QuantityFault, OUNCE_MG, POUND_MG, TSP, TBSP, FLUID_OUNCE, RICE, CUP, QUART};

verus! {

/// The metric unit system.
#[derive(Clone, Copy, Debug, PartialEq, Eq, PartialOrd, Ord, Hash)]
pub struct Metric;

/// The imperial unit system.
#[derive(Clone, Copy, Debug, PartialEq, Eq, PartialOrd, Ord, Hash)]
pub struct Imperial;

/// Why a quantity string could not be read.
#[derive(Clone, Debug, PartialEq, Eq)]
pub enum MeasurementError {
    EmptyString,
    UnknownUnit,
    InvalidFormat,
    CustomString(String),
}

/// Text given for an amount that is empty.
pub open spec fn empty_amount_text() -> Seq<char> {
    "cannot parse float from empty string"@
}

/// Text given for an amount that is no decimal numeral.
pub open spec fn malformed_amount_text() -> Seq<char> {
    "invalid float literal"@
}

/// `e` reports the fault `f`.
pub open spec fn reports(e: MeasurementError, f: QuantityFault) -> bool {
    match f {
        QuantityFault::EmptyString => e is EmptyString,
        QuantityFault::InvalidFormat => e is InvalidFormat,
        QuantityFault::UnknownUnit => e is UnknownUnit,
        QuantityFault::EmptyAmount => e is CustomString && e->CustomString_0@ == empty_amount_text(),
        QuantityFault::MalformedAmount => e is CustomString && e->CustomString_0@
            == malformed_amount_text(),
    }
}

impl MeasurementError {
    /// The error that reports `f`.
    pub fn from_fault(f: QuantityFault) -> (r: MeasurementError)
        ensures
            reports(r, f),
    {
        match f {
            QuantityFault::EmptyString => MeasurementError::EmptyString,
            QuantityFault::InvalidFormat => MeasurementError::InvalidFormat,
            QuantityFault::UnknownUnit => MeasurementError::UnknownUnit,
            QuantityFault::EmptyAmount => MeasurementError::CustomString(
                String::from_str("cannot parse float from empty string"),
            ),
            QuantityFault::MalformedAmount => MeasurementError::CustomString(
                String::from_str("invalid float literal"),
            ),
        }
    }
}

/// A weight in milligrams, shown in the unit system `T`.
#[derive(Copy, Debug, PartialEq, Eq, PartialOrd, Ord, Hash)]
pub struct Weight<T = Metric>(u64, PhantomData<T>);

impl<T> Clone for Weight<T> {
    fn clone(&self) -> (r: Self)
        ensures
            r@ == self@,
    {
        Weight(self.0, PhantomData)
    }
}

impl<T> View for Weight<T> {
    type V = u64;

    closed spec fn view(&self) -> u64 {
        self.0
    }
}

impl<T> Weight<T> {
    pub const POUND: u64 = POUND_MG;
    pub const OUNCE: u64 = OUNCE_MG;

    pub closed spec fn spec_get(self) -> u64 {
        self.0
    }

    pub closed spec fn spec_as_imperial(self) -> Weight<Imperial> {
        Weight(self.0, PhantomData)
    }

    pub closed spec fn spec_as_metric(self) -> Weight<Metric> {
        Weight(self.0, PhantomData)
    }

    /// The milligrams held.
    #[verifier::when_used_as_spec(spec_get)]
    pub fn get(self) -> (r: u64)
        ensures
            r == self@,
            r == self.spec_get(),
    {
        self.0
    }

    /// The same weight, shown in imperial units.
    #[verifier::when_used_as_spec(spec_as_imperial)]
    pub fn as_imperial(self) -> (r: Weight<Imperial>)
        ensures
            r@ == self@,
            r == self.spec_as_imperial(),
    {
        Weight(self.0, PhantomData)
    }

    /// The same weight, shown in metric units.
    #[verifier::when_used_as_spec(spec_as_metric)]
    pub fn as_metric(self) -> (r: Weight<Metric>)
        ensures
            r@ == self@,
            r == self.spec_as_metric(),
    {
        Weight(self.0, PhantomData)
    }
}

impl Weight {
    pub fn new_metric(v: u64) -> (r: Weight<Metric>)
        ensures
            r@ == v,
    {
        Weight(v, PhantomData)
    }

    pub fn new_imperial(v: u64) -> (r: Weight<Imperial>)
        ensures
            r@ == v,
    {
        Weight(v, PhantomData)
    }

    /// Reads a weight such as `10 pounds of eggs`: an amount, a space, a unit
    /// word and anything after a second space.
    pub fn parse(s: &str) -> (r: Result<Weight, MeasurementError>)
        ensures
            match quantity_outcome(s@, false) {
                Ok(v) => r is Ok && r->Ok_0@ == v,
                Err(f) => r is Err && reports(r->Err_0, f),
            },
    {
        match read_quantity(s, false) {
            Ok(v) => Ok(Weight(v, PhantomData)),
            Err(f) => Err(MeasurementError::from_fault(f)),
        }
    }
}

impl std::str::FromStr for Weight {
    type Err = MeasurementError;

    fn from_str(s: &str) -> (r: Result<Weight, MeasurementError>)
        ensures
            match quantity_outcome(s@, false) {
                Ok(v) => r is Ok && r->Ok_0@ == v,
                Err(f) => r is Err && reports(r->Err_0, f),
            },
    {
        Weight::parse(s)
    }
}

/// A volume in micro-millilitres (thousandths of a millilitre), shown in the unit system `T`.
#[derive(Copy, Debug, PartialEq, Eq, PartialOrd, Ord, Hash)]
pub struct Volume<T = Metric>(u64, PhantomData<T>);

impl<T> Clone for Volume<T> {
    fn clone(&self) -> (r: Self)
        ensures
            r@ == self@,
    {
        Volume(self.0, PhantomData)
    }
}

impl<T> View for Volume<T> {
    type V = u64;

    closed spec fn view(&self) -> u64 {
        self.0
    }
}

impl<T> Volume<T> {
    pub const TSP: u64 = TSP;
    pub const TBSP: u64 = TBSP;
    pub const OUNCE: u64 = FLUID_OUNCE;
    pub const RICE_CUP: u64 = RICE;
    pub const CUP: u64 = CUP;
    pub const QUART: u64 = QUART;

    pub closed spec fn spec_get(self) -> u64 {
        self.0
    }

    pub closed spec fn spec_as_imperial(self) -> Volume<Imperial> {
        Volume(self.0, PhantomData)
    }

    pub closed spec fn spec_as_metric(self) -> Volume<Metric> {
        Volume(self.0, PhantomData)
    }

    /// The micro-millilitres held.
    #[verifier::when_used_as_spec(spec_get)]
    pub fn get(self) -> (r: u64)
        ensures
            r == self@,
            r == self.spec_get(),
    {
        self.0
    }

    /// The same volume, shown in imperial units.
    #[verifier::when_used_as_spec(spec_as_imperial)]
    pub fn as_imperial(self) -> (r: Volume<Imperial>)
        ensures
            r@ == self@,
            r == self.spec_as_imperial(),
    {
        Volume(self.0, PhantomData)
    }

    /// The same volume, shown in metric units.
    #[verifier::when_used_as_spec(spec_as_metric)]
    pub fn as_metric(self) -> (r: Volume<Metric>)
        ensures
            r@ == self@,
            r == self.spec_as_metric(),
    {
        Volume(self.0, PhantomData)
    }
}

impl Volume {
    pub fn new_metric(v: u64) -> (r: Volume<Metric>)
        ensures
            r@ == v,
    {
        Volume(v, PhantomData)
    }

    pub fn new_imperial(v: u64) -> (r: Volume<Imperial>)
        ensures
            r@ == v,
    {
        Volume(v, PhantomData)
    }

    /// Reads a volume such as `2 cups of flour`; `rice` counts as a unit only
    /// where the string names a cup.
    pub fn parse(s: &str) -> (r: Result<Volume, MeasurementError>)
        ensures
            match quantity_outcome(s@, true) {
                Ok(v) => r is Ok && r->Ok_0@ == v,
                Err(f) => r is Err && reports(r->Err_0, f),
            },
    {
        match read_quantity(s, true) {
            Ok(v) => Ok(Volume(v, PhantomData)),
            Err(f) => Err(MeasurementError::from_fault(f)),
        }
    }
}

impl std::str::FromStr for Volume {
    type Err = MeasurementError;

    fn from_str(s: &str) -> (r: Result<Volume, MeasurementError>)
        ensures
            match quantity_outcome(s@, true) {
                Ok(v) => r is Ok && r->Ok_0@ == v,
                Err(f) => r is Err && reports(r->Err_0, f),
            },
    {
        Volume::parse(s)
    }
}

/// A change of unit system keeps the weight: to metric and back to imperial
/// holds the same milligrams, and so does the other way round.
pub proof fn lemma_weight_tags_keep_value<T>(x: Weight<T>)
    ensures
        x.as_metric().as_imperial().get() == x.get(),
        x.as_imperial().as_metric().get() == x.get(),
        x.as_metric().as_metric().get() == x.get(),
        x.as_imperial().as_imperial().get() == x.get(),
{
}

/// A change of unit system keeps the volume: to metric and back to imperial
/// holds the same micro-millilitres, and so does the other way round.
pub proof fn lemma_volume_tags_keep_value<T>(x: Volume<T>)
    ensures
        x.as_metric().as_imperial().get() == x.get(),
        x.as_imperial().as_metric().get() == x.get(),
        x.as_metric().as_metric().get() == x.get(),
        x.as_imperial().as_imperial().get() == x.get(),
{
}

} // verus!
