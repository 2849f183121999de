use vstd::prelude::*;

verus! {

/// Unit in which an inventory quantity is counted.
#[derive(Debug, Clone, Copy, PartialEq, Eq)]
pub enum QuantityType {
    Count,
    Grams,
    Ounces,
    Pounds,
    Liters,
    Milliliters,
    Gallons,
}

/// The snake_case text under which a quantity type is stored and sent.
pub open spec fn quantity_type_name(q: QuantityType) -> Seq<char> {
    match q {
        QuantityType::Count => "count"@,
        QuantityType::Grams => "grams"@,
        QuantityType::Ounces => "ounces"@,
        QuantityType::Pounds => "pounds"@,
        QuantityType::Liters => "liters"@,
        QuantityType::Milliliters => "milliliters"@,
        QuantityType::Gallons => "gallons"@,
    }
}

impl QuantityType {
    /// The stored name of this quantity type.
    pub fn as_str(&self) -> (name: &'static str)
        ensures
            name@ == quantity_type_name(*self),
    {
        match self {
            QuantityType::Count => "count",
            QuantityType::Grams => "grams",
            QuantityType::Ounces => "ounces",
            QuantityType::Pounds => "pounds",
            QuantityType::Liters => "liters",
            QuantityType::Milliliters => "milliliters",
            QuantityType::Gallons => "gallons",
        }
    }
}


/// Distinct quantity types are stored under distinct names, so the stored text
/// tells which one was meant.
pub proof fn lemma_quantity_type_names_distinct(a: QuantityType, b: QuantityType)
    ensures
        quantity_type_name(a) == quantity_type_name(b) ==> a == b,
{
    if quantity_type_name(a) == quantity_type_name(b) && a != b {
        reveal_strlit("count");
        reveal_strlit("grams");
        reveal_strlit("ounces");
        reveal_strlit("pounds");
        reveal_strlit("liters");
        reveal_strlit("milliliters");
        reveal_strlit("gallons");
        assert(quantity_type_name(a)[0] == quantity_type_name(b)[0]);
        assert(quantity_type_name(a).len() == quantity_type_name(b).len());
        assert(quantity_type_name(a)[1] == quantity_type_name(b)[1]);
        assert(quantity_type_name(a)[2] == quantity_type_name(b)[2]);
    }
}

} // verus!
