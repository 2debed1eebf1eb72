//! Colours and the stops of a gradient.
use crate::random::random_between;
use vstd::prelude::*;

verus! {

/// A colour of 24 bits.
#[derive(Clone, Copy, Debug, PartialEq, Eq, Structural)]
pub struct Rgb {
    pub r: u8,
    pub g: u8,
    pub b: u8,
}

/// The fewest stops of a gradient.
pub const MIN_STOPS: usize = 2;

/// The most stops of a gradient.
pub const MAX_STOPS: usize = 5;

/// Coral, where the replacement gradient starts.
pub open spec fn coral() -> Rgb {
    Rgb { r: 0xff, g: 0x6b, b: 0x6b }
}

/// Teal, where the replacement gradient ends.
pub open spec fn teal() -> Rgb {
    Rgb { r: 0x4e, g: 0xcd, b: 0xc4 }
}

/// The stops of the replacement gradient: coral, then teal.
pub open spec fn fallback_stops() -> Seq<Rgb> {
    seq![coral(), teal()]
}

/// Whether a gradient can have these stops: two to five of them.
pub open spec fn usable_stops(stops: Seq<Rgb>) -> bool {
    MIN_STOPS <= stops.len() <= MAX_STOPS
}

/// The colour stops of a gradient, in the order in which it runs through them.
#[derive(Debug)]
pub struct Gradient {
    stops: Vec<Rgb>,
}

impl View for Gradient {
    type V = Seq<Rgb>;

    closed spec fn view(&self) -> Seq<Rgb> {
        self.stops@
    }
}

impl Gradient {
    /// A gradient has two to five stops.
    #[verifier::type_invariant]
    closed spec fn well_formed(&self) -> bool {
        usable_stops(self.stops@)
    }

    /// The gradient through `stops`. A set of fewer than two or more than five
    /// stops is degenerate: the replacement gradient stands in for it.
    pub fn from_stops(stops: Vec<Rgb>) -> (gradient: Gradient)
        ensures
            usable_stops(gradient@),
            gradient@ == if usable_stops(stops@) {
                stops@
            } else {
                fallback_stops()
            },
    {
        if MIN_STOPS <= stops.len() && stops.len() <= MAX_STOPS {
            Gradient { stops }
        } else {
            Gradient::fallback()
        }
    }

    /// The replacement gradient, from coral to teal.
    pub fn fallback() -> (gradient: Gradient)
        ensures
            gradient@ == fallback_stops(),
    {
        let mut stops: Vec<Rgb> = Vec::new();
        stops.push(Rgb { r: 0xff, g: 0x6b, b: 0x6b });
        stops.push(Rgb { r: 0x4e, g: 0xcd, b: 0xc4 });
        proof {
            assert(stops@ =~= fallback_stops());
        }
        Gradient { stops }
    }

    /// The stops, in order.
    pub fn stops(&self) -> (stops: &Vec<Rgb>)
        ensures
            stops@ == self@,
            usable_stops(stops@),
    {
        proof {
            use_type_invariant(self);
        }
        &self.stops
    }
}

impl Clone for Gradient {
    /// A gradient through the same stops.
    fn clone(&self) -> (copy: Gradient)
        ensures
            copy@ == self@,
    {
        proof {
            use_type_invariant(self);
        }
        let mut stops: Vec<Rgb> = Vec::new();
        let mut i: usize = 0;
        while i < self.stops.len()
            invariant
                i <= self.stops.len(),
                stops@ == self.stops@.take(i as int),
            decreases self.stops.len() - i,
        {
            stops.push(self.stops[i]);
            proof {
                assert(self.stops@.take(i as int).push(self.stops@[i as int]) =~= self.stops@.take(i + 1));
            }
            i = i + 1;
        }
        proof {
            assert(self.stops@.take(i as int) =~= self.stops@);
        }
        Gradient { stops }
    }
}

/// Draws how many stops the next gradient gets: two to five, each as likely.
pub fn random_stop_count() -> (count: usize)
    ensures
        MIN_STOPS <= count <= MAX_STOPS,
{
    random_between(MIN_STOPS, MAX_STOPS)
}

} // verus!
