use vstd::prelude::*;

verus! {

/// A GTFS stop id.
#[derive(Debug, PartialEq, Eq, Hash, Clone)]
pub struct StopID {
    id: String,
}

impl StopID {
    pub closed spec fn text(&self) -> Seq<char> {
        self.id@
    }

    pub fn new(id: &str) -> (res: Self)
        ensures
            res.text() == id@,
    {
        Self { id: String::from_str(id) }
    }
}

/// A GTFS trip id.
#[derive(Debug, PartialEq, Eq, Hash, Clone)]
pub struct TripID {
    id: String,
}

impl TripID {
    pub closed spec fn text(&self) -> Seq<char> {
        self.id@
    }

    pub fn new(id: &str) -> (res: Self)
        ensures
            res.text() == id@,
    {
        Self { id: String::from_str(id) }
    }
}

/// A GTFS route id.
#[derive(Debug, Clone, PartialEq, Eq, Hash)]
pub struct RouteID {
    pub id: String,
}

impl RouteID {
    pub fn new(id: &str) -> (res: Self)
        ensures
            res.id@ == id@,
    {
        Self { id: String::from_str(id) }
    }
}

#[derive(Debug)]
pub struct Agency {}

#[derive(Debug)]
pub struct Route {}

#[derive(Debug)]
pub struct Trip {}

#[derive(Debug)]
pub struct StopTime {}

#[derive(Debug)]
pub struct Calendar {}

#[derive(Debug)]
pub struct CalendarDate {}

} // verus!
