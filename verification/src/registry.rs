//! The registry of locally connected clients.
//!
//! Each connected client has an outbound queue, which the transport layer owns
//! and names by a handle. The registry maps every identity under which a
//! client is known, the one that its connection was accepted with and the
//! names that it has registered, to that handle, and works out who receives a
//! broadcast.

use crate::keyed::{texts, StrMap};
use vstd::prelude::*;

verus! {

/// The handle of one client's outbound queue.
#[derive(Clone, Copy, Debug, PartialEq, Eq, Structural)]
pub struct ChannelId(pub u64);

/// One addressee of a message.
#[derive(Clone, Debug, PartialEq, Eq)]
pub struct Recipient {
    pub client_id: String,
    pub channel: ChannelId,
}

#[verifier::ext_equal]
pub struct RecipientView {
    pub client_id: Seq<char>,
    pub channel: ChannelId,
}

impl View for Recipient {
    type V = RecipientView;

    open spec fn view(&self) -> RecipientView {
        RecipientView { client_id: self.client_id@, channel: self.channel }
    }
}

/// The views of a list of addressees, in order.
pub open spec fn recipient_views(recipients: Seq<Recipient>) -> Seq<RecipientView> {
    recipients.map_values(|recipient: Recipient| recipient@)
}

/// The characters of an optional name.
pub open spec fn name_view(name: Option<&String>) -> Option<Seq<char>> {
    match name {
        Some(name) => Some(name@),
        None => None,
    }
}

/// Whether a broadcast over `registry` that leaves out `exclude` reaches
/// `member`.
pub open spec fn reaches(
    registry: Map<Seq<char>, ChannelId>,
    exclude: Option<Seq<char>>,
    member: Seq<char>,
) -> bool {
    exclude != Some(member) && registry.contains_key(member)
}

/// The addressees of a broadcast to `members`: each member but `exclude`
/// that is registered, with its channel, in the members' order.
pub open spec fn broadcast_recipients(
    registry: Map<Seq<char>, ChannelId>,
    members: Seq<Seq<char>>,
    exclude: Option<Seq<char>>,
) -> Seq<RecipientView>
    decreases members.len(),
{
    if members.len() == 0 {
        Seq::empty()
    } else {
        let earlier = broadcast_recipients(registry, members.drop_last(), exclude);
        let member = members.last();
        if reaches(registry, exclude, member) {
            earlier.push(RecipientView { client_id: member, channel: registry[member] })
        } else {
            earlier
        }
    }
}

/// The clients that are connected to this node, each with its channel.
pub struct PeerRegistry {
    peers: StrMap<ChannelId>,
}

impl View for PeerRegistry {
    type V = Map<Seq<char>, ChannelId>;

    closed spec fn view(&self) -> Map<Seq<char>, ChannelId> {
        self.peers@
    }
}

impl PeerRegistry {
    pub closed spec fn wf(&self) -> bool {
        self.peers.wf()
    }

    pub fn new() -> (registry: Self)
        ensures
            registry.wf(),
            registry@ == Map::<Seq<char>, ChannelId>::empty(),
    {
        let registry = PeerRegistry { peers: StrMap::new() };
        assert(registry@ =~= Map::<Seq<char>, ChannelId>::empty());
        registry
    }

    /// Records that `client` is reached through `channel`, in place of any
    /// channel recorded for it before.
    pub fn register(&mut self, client: &String, channel: ChannelId)
        requires
            old(self).wf(),
        ensures
            final(self).wf(),
            final(self)@ == old(self)@.insert(client@, channel),
    {
        self.peers.insert(client.clone(), channel);
    }

    /// Forgets `client`; returns whether it was registered.
    pub fn unregister(&mut self, client: &String) -> (known: bool)
        requires
            old(self).wf(),
        ensures
            final(self).wf(),
            final(self)@ == old(self)@.remove(client@),
            known == old(self)@.contains_key(client@),
    {
        self.peers.remove(client).is_some()
    }

    /// The channel of `client`, if it is registered.
    pub fn lookup(&self, client: &String) -> (channel: Option<ChannelId>)
        requires
            self.wf(),
        ensures
            channel == if self@.contains_key(client@) {
                Some(self@[client@])
            } else {
                None::<ChannelId>
            },
    {
        match self.peers.get(client) {
            Some(channel) => Some(*channel),
            None => None,
        }
    }

    /// The addressees of a broadcast to `members`, a copy of a room's member
    /// list taken by the caller: every member but `exclude` that is
    /// registered, once, in the list's order.
    pub fn broadcast_to_room(&self, members: &Vec<String>, exclude: Option<&String>) -> (recipients:
        Vec<Recipient>)
        requires
            self.wf(),
        ensures
            recipient_views(recipients@) == broadcast_recipients(
                self@,
                texts(members@),
                name_view(exclude),
            ),
    {
        let mut recipients: Vec<Recipient> = Vec::new();
        let mut i: usize = 0;
        assert(texts(members@).take(0) =~= Seq::<Seq<char>>::empty());
        while i < members.len()
            invariant
                self.wf(),
                i <= members.len(),
                recipient_views(recipients@) =~= broadcast_recipients(
                    self@,
                    texts(members@).take(i as int),
                    name_view(exclude),
                ),
            decreases members.len() - i,
        {
            let member = &members[i];
            let ghost prior = recipient_views(recipients@);
            proof {
                let upto = texts(members@).take(i + 1);
                assert(upto.drop_last() =~= texts(members@).take(i as int));
                assert(upto.last() == member@);
            }
            let excluded = match exclude {
                Some(name) => *name == *member,
                None => false,
            };
            if !excluded {
                match self.lookup(member) {
                    Some(channel) => {
                        recipients.push(Recipient { client_id: member.clone(), channel });
                        assert(recipient_views(recipients@) =~= prior.push(
                            RecipientView { client_id: member@, channel },
                        ));
                    },
                    None => {},
                }
            }
            i += 1;
        }
        assert(texts(members@).take(members.len() as int) =~= texts(members@));
        recipients
    }
}

/// A broadcast reaches nobody outside the member list, never the excluded
/// client, and nobody that is not registered.
pub proof fn lemma_broadcast_sound(
    registry: Map<Seq<char>, ChannelId>,
    members: Seq<Seq<char>>,
    exclude: Option<Seq<char>>,
    i: int,
)
    requires
        0 <= i < broadcast_recipients(registry, members, exclude).len(),
    ensures
        members.contains(broadcast_recipients(registry, members, exclude)[i].client_id),
        reaches(registry, exclude, broadcast_recipients(registry, members, exclude)[i].client_id),
        broadcast_recipients(registry, members, exclude)[i].channel
            == registry[broadcast_recipients(registry, members, exclude)[i].client_id],
    decreases members.len(),
{
    let earlier = broadcast_recipients(registry, members.drop_last(), exclude);
    if i < earlier.len() {
        lemma_broadcast_sound(registry, members.drop_last(), exclude, i);
        let name = earlier[i].client_id;
        let k = choose|k: int| 0 <= k < members.drop_last().len() && members.drop_last()[k] == name;
        assert(members[k] == name);
    } else {
        assert(members[members.len() - 1] == members.last());
    }
}

/// A broadcast to a member list without duplicates reaches every member that
/// is registered and not excluded, and reaches it exactly once.
pub proof fn lemma_broadcast_exactly_once(
    registry: Map<Seq<char>, ChannelId>,
    members: Seq<Seq<char>>,
    exclude: Option<Seq<char>>,
    member: Seq<char>,
)
    requires
        members.no_duplicates(),
        members.contains(member),
        reaches(registry, exclude, member),
    ensures
        exists|i: int|
            0 <= i < broadcast_recipients(registry, members, exclude).len() && (
            #[trigger] broadcast_recipients(registry, members, exclude)[i]).client_id == member,
        forall|i: int, j: int|
            0 <= i < broadcast_recipients(registry, members, exclude).len() && 0 <= j
                < broadcast_recipients(registry, members, exclude).len() && (
            #[trigger] broadcast_recipients(registry, members, exclude)[i]).client_id == member && (
            #[trigger] broadcast_recipients(registry, members, exclude)[j]).client_id == member
                ==> i == j,
    decreases members.len(),
{
    let all = broadcast_recipients(registry, members, exclude);
    let shorter = members.drop_last();
    let earlier = broadcast_recipients(registry, shorter, exclude);
    assert(shorter.no_duplicates());
    if members.last() == member {
        assert(all == earlier.push(RecipientView { client_id: member, channel: registry[member] }));
        assert(all[earlier.len() as int].client_id == member);
        assert forall|i: int| 0 <= i < earlier.len() implies earlier[i].client_id != member by {
            lemma_broadcast_sound(registry, shorter, exclude, i);
            let k = choose|k: int| 0 <= k < shorter.len() && shorter[k] == earlier[i].client_id;
            assert(members[k] == shorter[k]);
        }
    } else {
        let k = choose|k: int| 0 <= k < members.len() && members[k] == member;
        assert(shorter[k] == member);
        lemma_broadcast_exactly_once(registry, shorter, exclude, member);
        let w = choose|i: int| 0 <= i < earlier.len() && (#[trigger] earlier[i]).client_id == member;
        assert(all[w].client_id == member);
    }
}

} // verus!
