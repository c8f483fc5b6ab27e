use vstd::prelude::*;
use crate::keyed::{keys_unique, pairs_to_map};
use crate::roster::Roster;
use crate::messages::{
    ClientMessage, PlayerPosition, ServerMessage, ServerMessageView, spawn_position,
    spec_spawn_position, positions_view,
};

verus! {

/// The players connected to the server, in the order they connected. `C` is
/// the handle through which the server writes to a player.
pub struct PlayerRegistry<C> {
    positions: Roster<PlayerPosition>,
    connections: Roster<C>,
}

/// What the server does after handling one client message.
#[derive(Debug, PartialEq)]
pub enum Reply {
    /// Send the chunks around the given chunk coordinates to this client.
    SendChunksAround { center_x: i32, center_y: i32 },
    /// Send every player's position to every player.
    BroadcastPositions,
    /// Report that the client introduced itself under this name.
    Greet { player_name: String },
    /// Nothing to do.
    Ignore,
}

impl<C> View for PlayerRegistry<C> {
    type V = Map<Seq<char>, PlayerPosition>;

    /// The position of each connected player, by id.
    closed spec fn view(&self) -> Map<Seq<char>, PlayerPosition> {
        self.positions@
    }
}

impl<C> PlayerRegistry<C> {
    /// Well-formedness: no id occurs twice, and positions and connections are
    /// kept for the same players in the same order.
    pub closed spec fn wf(&self) -> bool {
        &&& self.positions.wf()
        &&& self.connections.wf()
        &&& self.positions.keys() == self.connections.keys()
    }

    /// The connection of each connected player, by id.
    pub closed spec fn connections(&self) -> Map<Seq<char>, C> {
        self.connections@
    }

    /// The ids of the connected players, in the order they connected.
    pub closed spec fn ids(&self) -> Seq<Seq<char>> {
        self.positions.keys()
    }

    /// Every connected player's id with its position, in connection order.
    pub open spec fn snapshot(&self) -> Seq<(Seq<char>, PlayerPosition)> {
        Seq::new(self.ids().len(), |i: int| (self.ids()[i], self@[self.ids()[i]]))
    }

    /// The order of `ids()` lists each connected player exactly once, and the
    /// positions and connections are kept for the same players.
    pub proof fn lemma_ids(&self)
        requires
            self.wf(),
        ensures
            forall|i: int, j: int|
                0 <= i < self.ids().len() && 0 <= j < self.ids().len() && i != j ==> #[trigger] self.ids()[i]
                    != #[trigger] self.ids()[j],
            forall|k: Seq<char>|
                #[trigger] self@.contains_key(k) <==> exists|i: int|
                    0 <= i < self.ids().len() && #[trigger] self.ids()[i] == k,
            forall|k: Seq<char>| #[trigger] self@.contains_key(k) <==> self.connections().contains_key(k),
            self.ids().len() == self@.len(),
    {
        self.positions.lemma_keys();
        self.connections.lemma_keys();
    }

    /// The snapshot has unique ids and, read as a map, is the registry's view.
    pub proof fn lemma_snapshot(&self)
        requires
            self.wf(),
        ensures
            keys_unique(self.snapshot()),
            pairs_to_map(self.snapshot()) == self@,
    {
        self.positions.lemma_keys();
        assert(self.snapshot() =~= self.positions.pairs());
    }

    /// An empty registry.
    pub fn new() -> (r: PlayerRegistry<C>)
        ensures
            r.wf(),
            r@ == Map::<Seq<char>, PlayerPosition>::empty(),
            r.connections() == Map::<Seq<char>, C>::empty(),
            r.ids() == Seq::<Seq<char>>::empty(),
    {
        PlayerRegistry { positions: Roster::new(), connections: Roster::new() }
    }

    /// Number of connected players.
    pub fn len(&self) -> (n: usize)
        requires
            self.wf(),
        ensures
            n == self@.len(),
            n == self.ids().len(),
    {
        self.positions.len()
    }

    /// Registers player `id`, reachable through `connection`, at the spawn
    /// position. A player already registered under `id` is replaced.
    pub fn connect(&mut self, id: String, connection: C)
        requires
            old(self).wf(),
        ensures
            final(self).wf(),
            final(self)@ == old(self)@.insert(id@, spec_spawn_position()),
            final(self).connections() == old(self).connections().insert(id@, connection),
            final(self).ids() == if old(self)@.contains_key(id@) {
                old(self).ids()
            } else {
                old(self).ids().push(id@)
            },
    {
        proof {
            self.lemma_ids();
        }
        let name = id.clone();
        self.positions.insert(id, spawn_position());
        self.connections.insert(name, connection);
    }

    /// Forgets player `id`, if connected.
    pub fn disconnect(&mut self, id: &String)
        requires
            old(self).wf(),
        ensures
            final(self).wf(),
            final(self)@ == old(self)@.remove(id@),
            final(self).connections() == old(self).connections().remove(id@),
            old(self)@.contains_key(id@) ==> exists|i: int|
                0 <= i < old(self).ids().len() && old(self).ids()[i] == id@ && final(self).ids()
                    == old(self).ids().remove(i),
            !old(self)@.contains_key(id@) ==> final(self).ids() == old(self).ids(),
    {
        proof {
            self.lemma_ids();
        }
        let ghost keys = self.positions.keys();
        self.positions.remove(id);
        self.connections.remove(id);
        proof {
            if old(self)@.contains_key(id@) {
                let i = choose|i: int|
                    0 <= i < keys.len() && keys[i] == id@ && self.positions.keys() == keys.remove(i);
                let j = choose|j: int|
                    0 <= j < keys.len() && keys[j] == id@ && self.connections.keys() == keys.remove(j);
                assert(i == j);
            }
        }
    }

    /// Records `position` for player `id` if it is connected; does nothing
    /// otherwise.
    pub fn update_position(&mut self, id: &String, position: PlayerPosition)
        requires
            old(self).wf(),
        ensures
            final(self).wf(),
            final(self)@ == if old(self)@.contains_key(id@) {
                old(self)@.insert(id@, position)
            } else {
                old(self)@
            },
            final(self).connections() == old(self).connections(),
            final(self).ids() == old(self).ids(),
    {
        match self.positions.find(id) {
            Some(i) => self.positions.set_value_at(i, position),
            None => {},
        }
    }

    /// The last known position of player `id`, if connected.
    pub fn position(&self, id: &String) -> (r: Option<PlayerPosition>)
        requires
            self.wf(),
        ensures
            r == (if self@.contains_key(id@) {
                Some(self@[id@])
            } else {
                None
            }),
    {
        match self.positions.get(id) {
            Some(p) => Some(*p),
            None => None,
        }
    }

    /// The connection of the `i`-th player in connection order.
    pub fn connection_at(&self, i: usize) -> (c: &C)
        requires
            self.wf(),
            i < self.ids().len(),
        ensures
            self.connections().contains_key(self.ids()[i as int]),
            *c == self.connections()[self.ids()[i as int]],
    {
        self.connections.value_at(i)
    }

    /// The message that tells a client where every connected player is: one
    /// `(id, position)` pair per player, in connection order.
    pub fn positions_message(&self) -> (m: ServerMessage)
        requires
            self.wf(),
        ensures
            m@ == ServerMessageView::PlayerPositions(self.snapshot()),
    {
        let n = self.positions.len();
        let mut list: Vec<(String, PlayerPosition)> = Vec::new();
        let mut i: usize = 0;
        while i < n
            invariant
                i <= n,
                n == self.ids().len(),
                self.wf(),
                positions_view(list@) == self.snapshot().take(i as int),
            decreases n - i,
        {
            let ghost before = list@;
            let id: String = self.positions.key_at(i).clone();
            let p: PlayerPosition = *self.positions.value_at(i);
            list.push((id, p));
            proof {
                assert(positions_view(list@) =~= positions_view(before).push(self.snapshot()[i as int]));
                assert(self.snapshot().take(i + 1) =~= self.snapshot().take(i as int).push(
                    self.snapshot()[i as int],
                ));
            }
            i = i + 1;
        }
        assert(self.snapshot().take(n as int) =~= self.snapshot());
        ServerMessage::PlayerPositions(list)
    }
}

/// Handles one message from player `player_id` and says what to send back.
/// A position update is recorded only for a registered player, and positions
/// are broadcast after every update.
pub fn handle_client_message<C>(
    players: &mut PlayerRegistry<C>,
    player_id: &String,
    message: ClientMessage,
) -> (reply: Reply)
    requires
        old(players).wf(),
    ensures
        final(players).wf(),
        final(players).connections() == old(players).connections(),
        final(players).ids() == old(players).ids(),
        match message {
            ClientMessage::RequestChunks { center_x, center_y } => {
                &&& reply == Reply::SendChunksAround { center_x, center_y }
                &&& final(players)@ == old(players)@
            },
            ClientMessage::PlayerPositionUpdate(pos) => {
                &&& reply == Reply::BroadcastPositions
                &&& final(players)@ == if old(players)@.contains_key(player_id@) {
                    old(players)@.insert(player_id@, pos)
                } else {
                    old(players)@
                }
            },
            ClientMessage::Connect { player_name } => {
                &&& reply == Reply::Greet { player_name }
                &&& final(players)@ == old(players)@
            },
            ClientMessage::Move { .. } => {
                &&& reply == Reply::Ignore
                &&& final(players)@ == old(players)@
            },
        },
{
    match message {
        ClientMessage::RequestChunks { center_x, center_y } => Reply::SendChunksAround {
            center_x,
            center_y,
        },
        ClientMessage::PlayerPositionUpdate(pos) => {
            players.update_position(player_id, pos);
            Reply::BroadcastPositions
        },
        ClientMessage::Connect { player_name } => Reply::Greet { player_name },
        ClientMessage::Move { .. } => Reply::Ignore,
    }
}

} // verus!
