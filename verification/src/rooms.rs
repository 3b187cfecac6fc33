use vstd::prelude::*;

verus! {

/// A hall joining two rooms, named by their positions in the game's room
/// table.
#[derive(Debug)]
pub struct Hall {
    pub left: usize,
    pub right: usize,
}

impl Hall {
    /// A hall between the two rooms.
    pub fn new(left: usize, right: usize) -> (h: Hall)
        ensures
            h.left == left,
            h.right == right,
    {
        Hall { left, right }
    }

    /// Given a room at one end of this hall, the room at the other end.
    /// A room not on this hall is the caller's error.
    pub fn other(&self, room: usize) -> (o: usize)
        requires
            room == self.left || room == self.right,
        ensures
            o == if room == self.left {
                self.right
            } else {
                self.left
            },
    {
        if room == self.left {
            self.right
        } else {
            self.left
        }
    }
}

/// A room: its name, the halls leading out of it (as positions in the
/// game's hall table), and whether the wumpus is in.
#[derive(Debug)]
pub struct Room {
    pub name: String,
    pub halls: Vec<usize>,
    pub wumpus: bool,
}

/// Names joined by single spaces.
pub open spec fn join_spaces(names: Seq<Seq<char>>) -> Seq<char>
    decreases names.len(),
{
    if names.len() == 0 {
        Seq::empty()
    } else if names.len() == 1 {
        names[0]
    } else {
        join_spaces(names.drop_last()) + seq![' '] + names.last()
    }
}

/// The rooms on the far side of each of a room's halls, in hall order:
/// each hall is on the table, the room itself stands at one of its ends,
/// and the far end is on the room table.
pub open spec fn neighbors_wf(room: Room, me: usize, halls: Seq<Hall>, rooms: Seq<Room>) -> bool {
    forall|t: int|
        0 <= t < room.halls@.len() ==> {
            let h = #[trigger] room.halls@[t];
            &&& h < halls.len()
            &&& (me == halls[h as int].left || me == halls[h as int].right)
            &&& (if me == halls[h as int].left {
                halls[h as int].right
            } else {
                halls[h as int].left
            }) < rooms.len()
        }
}

/// The names of a room's neighbors, one per hall, in hall order.
pub open spec fn neighbor_names(room: Room, me: usize, halls: Seq<Hall>, rooms: Seq<Room>) -> Seq<
    Seq<char>,
> {
    Seq::new(
        room.halls@.len(),
        |t: int|
            {
                let h = room.halls@[t];
                let o = if me == halls[h as int].left {
                    halls[h as int].right
                } else {
                    halls[h as int].left
                };
                rooms[o as int].name@
            },
    )
}

impl Room {
    /// A room with no halls yet.
    pub fn new(name: &str, wumpus: bool) -> (r: Room)
        ensures
            r.name@ == name@,
            r.halls@ == Seq::<usize>::empty(),
            r.wumpus == wumpus,
    {
        let halls: Vec<usize> = Vec::new();
        proof {
            assert(halls@ =~= Seq::<usize>::empty());
        }
        Room { name: name.to_owned(), halls, wumpus }
    }

    /// Records one more hall out of this room.
    pub fn add_hall(&mut self, hall: usize)
        ensures
            final(self).halls@ == old(self).halls@.push(hall),
            final(self).name == old(self).name,
            final(self).wumpus == old(self).wumpus,
    {
        self.halls.push(hall);
    }

    /// The names of the rooms at the far ends of this room's halls, joined
    /// by spaces. `me` is this room's own position in `rooms`.
    pub fn neighbors_string(&self, me: usize, halls: &Vec<Hall>, rooms: &Vec<Room>) -> (s: String)
        requires
            neighbors_wf(*self, me, halls@, rooms@),
        ensures
            s@ == join_spaces(neighbor_names(*self, me, halls@, rooms@)),
    {
        let ghost names = neighbor_names(*self, me, halls@, rooms@);
        let mut s = String::new();
        let mut t: usize = 0;
        proof {
            assert(s@ =~= join_spaces(names.take(0)));
        }
        while t < self.halls.len()
            invariant
                0 <= t <= self.halls@.len(),
                neighbors_wf(*self, me, halls@, rooms@),
                names == neighbor_names(*self, me, halls@, rooms@),
                s@ == join_spaces(names.take(t as int)),
            decreases self.halls@.len() - t,
        {
            let h = self.halls[t];
            let hall = &halls[h];
            let o = hall.other(me);
            let ghost pre = s@;
            if t > 0 {
                s.append(" ");
                proof {
                    reveal_strlit(" ");
                    assert(s@ =~= pre + seq![' ']);
                }
            }
            s.append(rooms[o].name.as_str());
            proof {
                assert(names[t as int] == rooms@[o as int].name@);
                assert(names.take(t + 1).drop_last() =~= names.take(t as int));
                assert(names.take(t + 1).last() == names[t as int]);
                if t == 0 {
                    assert(s@ =~= join_spaces(names.take(1)));
                } else {
                    assert(s@ =~= join_spaces(names.take(t as int)) + seq![' '] + names[t as int]);
                }
            }
            t = t + 1;
        }
        proof {
            assert(names.take(names.len() as int) =~= names);
        }
        s
    }
}

} // verus!
