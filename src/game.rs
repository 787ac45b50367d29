use vstd::prelude::*;
use vstd::std_specs::iter::IteratorSpec;
use crate::object::{Color, Object};
use crate::tiles::DungeonMap;

verus! {

/// One logged line: its text and the colour it is shown in.
pub type LogLine = (Seq<char>, Color);

/// The message log: an append-only sequence of coloured lines.
pub struct Messages {
    messages: Vec<(String, Color)>,
}

impl View for Messages {
    type V = Seq<LogLine>;

    closed spec fn view(&self) -> Seq<LogLine> {
        self.messages@.map_values(|m: (String, Color)| (m.0@, m.1))
    }
}

impl Messages {
    /// An empty log.
    pub fn new() -> (m: Messages)
        ensures
            m@ == Seq::<LogLine>::empty(),
    {
        let m = Messages { messages: Vec::new() };
        assert(m@ =~= Seq::<LogLine>::empty());
        m
    }

    /// Appends a line.
    pub fn add(&mut self, message: String, color: Color)
        ensures
            final(self)@ == old(self)@.push((message@, color)),
    {
        let ghost text = message@;
        self.messages.push((message, color));
        assert(self@ =~= old(self)@.push((text, color)));
    }

    /// The number of lines logged.
    pub fn len(&self) -> (n: usize)
        ensures
            n == self@.len(),
    {
        self.messages.len()
    }

    /// The lines, oldest first.
    pub fn iter(&self) -> (r: std::slice::Iter<'_, (String, Color)>)
        ensures
            r.remaining().len() == self@.len(),
            forall|i: int|
                0 <= i < self@.len() ==> (#[trigger] r.remaining()[i].0@, r.remaining()[i].1)
                    == self@[i],
    {
        let s = self.messages.as_slice();
        let r = s.iter();
        proof {
            broadcast use vstd::std_specs::slice::axiom_spec_slice_iter;
        }
        r
    }
}

/// The state of one game session, besides its entities.
pub struct Game {
    pub map: DungeonMap,
    pub messages: Messages,
    pub inventory: Vec<Object>,
    pub dungeon_level: u32,
}

/// `g2` is `g1` with the lines `lines` appended to its log and nothing else
/// changed.
pub open spec fn logged(g1: Game, g2: Game, lines: Seq<LogLine>) -> bool {
    &&& g2.map == g1.map
    &&& g2.inventory == g1.inventory
    &&& g2.dungeon_level == g1.dungeon_level
    &&& g2.messages@ == g1.messages@ + lines
}

} // verus!
