//! What the present peers know about one another.
//!
//! A server tells peers who joins and who goes. A peer's roster is what it makes of the notices
//! that it gets. The rosters are consistent when every present peer knows exactly the others.

use crate::addr::SocketAddr;
use crate::table;
use vstd::prelude::*;

verus! {

/// News about one peer, which is known by its audio address.
pub enum Notice {
    Joined { addr: SocketAddr, sample_rate: u32 },
    Gone { addr: SocketAddr },
    /// Something that says nothing about other peers.
    Other,
}

/// What a peer knows about others: their sample rates, by audio address.
pub type Roster = Map<SocketAddr, u32>;

/// A roster after a notice.
pub open spec fn hear(roster: Roster, notice: Notice) -> Roster {
    match notice {
        Notice::Joined { addr, sample_rate } => roster.insert(addr, sample_rate),
        Notice::Gone { addr } => roster.remove(addr),
        Notice::Other => roster,
    }
}

/// A roster after those of the notices that are for the connection `to`.
pub open spec fn heard(roster: Roster, notices: Seq<(SocketAddr, Notice)>, to: SocketAddr) -> Roster
    decreases notices.len(),
{
    if notices.len() == 0 {
        roster
    } else {
        let before = heard(roster, notices.drop_last(), to);
        if notices.last().0 == to {
            hear(before, notices.last().1)
        } else {
            before
        }
    }
}

/// All rosters, by connection, after the notices are delivered.
pub open spec fn deliver(
    rosters: Map<SocketAddr, Roster>,
    notices: Seq<(SocketAddr, Notice)>,
) -> Map<SocketAddr, Roster> {
    rosters.map_entries(|to: SocketAddr, roster: Roster| heard(roster, notices, to))
}

/// What the peer at the connection `me` should know: the others, of whom `present` gives audio
/// address and sample rate by connection.
pub open spec fn known_to(present: Map<SocketAddr, (SocketAddr, u32)>, me: SocketAddr) -> Roster {
    Map::new(
        |audio: SocketAddr|
            exists|conn: SocketAddr| #[trigger]
                present.contains_key(conn) && conn != me && present[conn].0 == audio,
        |audio: SocketAddr|
            present[choose|conn: SocketAddr| #[trigger]
                present.contains_key(conn) && conn != me && present[conn].0 == audio].1,
    )
}

/// Every present peer knows exactly the others.
pub open spec fn consistent(
    present: Map<SocketAddr, (SocketAddr, u32)>,
    rosters: Map<SocketAddr, Roster>,
) -> bool {
    forall|me: SocketAddr| #[trigger]
        present.contains_key(me) ==> rosters.contains_key(me) && rosters[me] == known_to(
            present,
            me,
        )
}

/// No two present peers share an audio address.
pub open spec fn audio_distinct(present: Map<SocketAddr, (SocketAddr, u32)>) -> bool {
    forall|a: SocketAddr, b: SocketAddr|
        #![trigger present.contains_key(a), present.contains_key(b)]
        present.contains_key(a) && present.contains_key(b) && a != b ==> present[a].0
            != present[b].0
}

/// The notices tell every present peer about the newcomer at `conn`, and the newcomer about every
/// present peer.
pub open spec fn introduces(
    notices: Seq<(SocketAddr, Notice)>,
    present: Map<SocketAddr, (SocketAddr, u32)>,
    conn: SocketAddr,
    audio: SocketAddr,
    sample_rate: u32,
) -> bool {
    &&& forall|me: SocketAddr, roster: Roster|
        present.contains_key(me) && me != conn ==> #[trigger] heard(roster, notices, me)
            == roster.insert(audio, sample_rate)
    &&& heard(Map::empty(), notices, conn) == known_to(present, conn)
}

/// The notices tell every present peer that one has gone.
pub open spec fn dismisses(
    notices: Seq<(SocketAddr, Notice)>,
    present: Map<SocketAddr, (SocketAddr, u32)>,
    audio: SocketAddr,
) -> bool {
    forall|me: SocketAddr, roster: Roster|
        present.contains_key(me) ==> #[trigger] heard(roster, notices, me) == roster.remove(audio)
}

/// A newcomer adds itself to what the others should know, and itself should know the others.
pub proof fn lemma_known_after_join(
    present: Map<SocketAddr, (SocketAddr, u32)>,
    conn: SocketAddr,
    audio: SocketAddr,
    sample_rate: u32,
    me: SocketAddr,
)
    requires
        audio_distinct(present.insert(conn, (audio, sample_rate))),
        !present.contains_key(conn),
    ensures
        me != conn ==> known_to(present.insert(conn, (audio, sample_rate)), me) == known_to(
            present,
            me,
        ).insert(audio, sample_rate),
        me == conn ==> known_to(present.insert(conn, (audio, sample_rate)), me) == known_to(
            present,
            me,
        ),
{
    let after = present.insert(conn, (audio, sample_rate));
    assert forall|k: SocketAddr| present.contains_key(k) implies #[trigger] after.contains_key(k)
        && after[k] == present[k] && present[k].0 != audio by {
        assert(after.contains_key(conn) && after.contains_key(k));
        assert(after[conn].0 == audio);
    }
    assert(audio_distinct(present)) by {
        assert forall|a: SocketAddr, b: SocketAddr|
            #![trigger present.contains_key(a), present.contains_key(b)]
            present.contains_key(a) && present.contains_key(b) && a != b implies present[a].0
            != present[b].0 by {
            assert(after.contains_key(a) && after.contains_key(b));
        }
    }
    lemma_known(after, me);
    lemma_known(present, me);
    assert(after.contains_key(conn));
    assert forall|a: SocketAddr| #[trigger] known_to(after, me).contains_key(a) implies if me
        != conn && a == audio {
        known_to(after, me)[a] == sample_rate
    } else {
        known_to(present, me).contains_key(a) && known_to(present, me)[a] == known_to(
            after,
            me,
        )[a]
    } by {
        let k = choose|k: SocketAddr| #[trigger]
            after.contains_key(k) && k != me && after[k].0 == a;
        assert(known_to(after, me)[a] == after[k].1);
        if k != conn {
            assert(present.contains_key(k));
        }
    }
    assert forall|a: SocketAddr| #[trigger] known_to(present, me).contains_key(a) implies known_to(
        after,
        me,
    ).contains_key(a) && known_to(after, me)[a] == known_to(present, me)[a] by {
        let k = choose|k: SocketAddr| #[trigger]
            present.contains_key(k) && k != me && present[k].0 == a;
        assert(after.contains_key(k));
    }
    if me != conn {
        assert(known_to(after, me).contains_key(audio));
        assert(known_to(after, me) =~= known_to(present, me).insert(audio, sample_rate));
    } else {
        assert(known_to(after, me) =~= known_to(present, me));
    }
}

/// Where no audio address is shared, a peer knows another by the sample rate that it has.
proof fn lemma_known(present: Map<SocketAddr, (SocketAddr, u32)>, me: SocketAddr)
    requires
        audio_distinct(present),
    ensures
        forall|k: SocketAddr| #[trigger]
            present.contains_key(k) && k != me ==> known_to(present, me).contains_key(present[k].0)
                && known_to(present, me)[present[k].0] == present[k].1,
{
    assert forall|k: SocketAddr| #[trigger] present.contains_key(k) && k != me implies known_to(
        present,
        me,
    ).contains_key(present[k].0) && known_to(present, me)[present[k].0] == present[k].1 by {
        let a = present[k].0;
        let j = choose|j: SocketAddr| #[trigger]
            present.contains_key(j) && j != me && present[j].0 == a;
        assert(present.contains_key(j) && present.contains_key(k));
        assert(j == k);
    }
}

/// Somebody who goes is taken from what the others should know.
pub proof fn lemma_known_after_part(
    present: Map<SocketAddr, (SocketAddr, u32)>,
    conn: SocketAddr,
    me: SocketAddr,
)
    requires
        audio_distinct(present),
        present.contains_key(conn),
        me != conn,
    ensures
        known_to(present.remove(conn), me) == known_to(present, me).remove(present[conn].0),
{
    let after = present.remove(conn);
    let audio = present[conn].0;
    assert forall|k: SocketAddr| #[trigger] after.contains_key(k) implies present.contains_key(k)
        && after[k] == present[k] && after[k].0 != audio by {
        assert(present.contains_key(conn));
    }
    assert(audio_distinct(after)) by {
        assert forall|a: SocketAddr, b: SocketAddr|
            #![trigger after.contains_key(a), after.contains_key(b)]
            after.contains_key(a) && after.contains_key(b) && a != b implies after[a].0
            != after[b].0 by {
            assert(present.contains_key(a) && present.contains_key(b));
        }
    }
    lemma_known(present, me);
    lemma_known(after, me);
    assert forall|a: SocketAddr| #[trigger] known_to(after, me).contains_key(a) implies a != audio
        && known_to(present, me).contains_key(a) && known_to(present, me)[a] == known_to(
        after,
        me,
    )[a] by {
        let k = choose|k: SocketAddr| #[trigger]
            after.contains_key(k) && k != me && after[k].0 == a;
        assert(present.contains_key(k));
    }
    assert forall|a: SocketAddr| #[trigger]
        known_to(present, me).contains_key(a) && a != audio implies known_to(
        after,
        me,
    ).contains_key(a) by {
        let k = choose|k: SocketAddr| #[trigger]
            present.contains_key(k) && k != me && present[k].0 == a;
        assert(after.contains_key(k));
    }
    assert(known_to(after, me) =~= known_to(present, me).remove(audio));
}

/// When a newcomer is introduced, the rosters stay consistent.
pub proof fn lemma_join(
    present: Map<SocketAddr, (SocketAddr, u32)>,
    rosters: Map<SocketAddr, Roster>,
    conn: SocketAddr,
    audio: SocketAddr,
    sample_rate: u32,
    notices: Seq<(SocketAddr, Notice)>,
)
    requires
        consistent(present, rosters),
        !present.contains_key(conn),
        audio_distinct(present.insert(conn, (audio, sample_rate))),
        introduces(notices, present, conn, audio, sample_rate),
    ensures
        consistent(
            present.insert(conn, (audio, sample_rate)),
            deliver(rosters.insert(conn, Map::empty()), notices),
        ),
{
    let after = present.insert(conn, (audio, sample_rate));
    let told = deliver(rosters.insert(conn, Map::empty()), notices);
    assert forall|me: SocketAddr| #[trigger] after.contains_key(me) implies told.contains_key(me)
        && told[me] == known_to(after, me) by {
        lemma_known_after_join(present, conn, audio, sample_rate, me);
        if me != conn {
            assert(present.contains_key(me));
            assert(told[me] == heard(rosters[me], notices, me));
        }
    }
}

/// When somebody is dismissed, the rosters stay consistent.
pub proof fn lemma_part(
    present: Map<SocketAddr, (SocketAddr, u32)>,
    rosters: Map<SocketAddr, Roster>,
    conn: SocketAddr,
    notices: Seq<(SocketAddr, Notice)>,
)
    requires
        consistent(present, rosters),
        present.contains_key(conn),
        audio_distinct(present),
        dismisses(notices, present.remove(conn), present[conn].0),
    ensures
        consistent(present.remove(conn), deliver(rosters, notices)),
{
    let after = present.remove(conn);
    let told = deliver(rosters, notices);
    assert forall|me: SocketAddr| #[trigger] after.contains_key(me) implies told.contains_key(me)
        && told[me] == known_to(after, me) by {
        assert(present.contains_key(me));
        lemma_known_after_part(present, conn, me);
        assert(told[me] == heard(rosters[me], notices, me));
    }
}

/// Hearing notices one batch after another is hearing them together.
pub proof fn lemma_heard_concat(
    roster: Roster,
    first: Seq<(SocketAddr, Notice)>,
    second: Seq<(SocketAddr, Notice)>,
    to: SocketAddr,
)
    ensures
        heard(roster, first + second, to) == heard(heard(roster, first, to), second, to),
    decreases second.len(),
{
    if second.len() == 0 {
        assert(first + second =~= first);
    } else {
        assert((first + second).drop_last() =~= first + second.drop_last());
        lemma_heard_concat(roster, first, second.drop_last(), to);
    }
}

/// Delivering two batches of notices, one after the other, is delivering them together.
pub proof fn lemma_deliver_concat(
    rosters: Map<SocketAddr, Roster>,
    first: Seq<(SocketAddr, Notice)>,
    second: Seq<(SocketAddr, Notice)>,
)
    ensures
        deliver(deliver(rosters, first), second) == deliver(rosters, first + second),
{
    assert forall|to: SocketAddr| rosters.contains_key(to) implies #[trigger] deliver(
        deliver(rosters, first),
        second,
    )[to] == deliver(rosters, first + second)[to] by {
        lemma_heard_concat(rosters[to], first, second, to);
    }
    assert(deliver(deliver(rosters, first), second) =~= deliver(rosters, first + second));
}

/// One notice to the newcomer at `conn` about every member, and one to every member about the
/// newcomer. Of every two, the one to the newcomer comes first or last.
pub open spec fn introduction(
    members: Seq<(SocketAddr, (SocketAddr, u32))>,
    conn: SocketAddr,
    audio: SocketAddr,
    sample_rate: u32,
    newcomer_first: bool,
) -> Seq<(SocketAddr, Notice)> {
    Seq::new(
        2 * members.len(),
        |i: int|
            {
                let member = members[i / 2];
                if (i % 2 == 0) == newcomer_first {
                    (conn, Notice::Joined { addr: member.1.0, sample_rate: member.1.1 })
                } else {
                    (member.0, Notice::Joined { addr: audio, sample_rate })
                }
            },
    )
}

/// One notice to every member about somebody who has gone.
pub open spec fn dismissal(
    members: Seq<(SocketAddr, (SocketAddr, u32))>,
    audio: SocketAddr,
) -> Seq<(SocketAddr, Notice)> {
    members.map_values(
        |member: (SocketAddr, (SocketAddr, u32))| (member.0, Notice::Gone { addr: audio }),
    )
}

/// What an introduction tells a member, and what it tells anybody who is neither member nor
/// newcomer.
pub proof fn lemma_introduction_to_member(
    members: Seq<(SocketAddr, (SocketAddr, u32))>,
    conn: SocketAddr,
    audio: SocketAddr,
    sample_rate: u32,
    newcomer_first: bool,
    me: SocketAddr,
    roster: Roster,
)
    requires
        table::keys_distinct(members),
        me != conn,
    ensures
        heard(
            roster,
            introduction(members, conn, audio, sample_rate, newcomer_first),
            me,
        ) == if table::has_key(members, me) {
            roster.insert(audio, sample_rate)
        } else {
            roster
        },
    decreases members.len(),
{
    let notices = introduction(members, conn, audio, sample_rate, newcomer_first);
    if members.len() != 0 {
        let init = members.drop_last();
        let last = members.last();
        let prior = introduction(init, conn, audio, sample_rate, newcomer_first);
        assert(notices.drop_last().drop_last() =~= prior);
        assert forall|i: int, j: int| 0 <= i < j < init.len() implies #[trigger] init[i].0
            != #[trigger] init[j].0 by {
            assert(members[i].0 != members[j].0);
        }
        lemma_introduction_to_member(init, conn, audio, sample_rate, newcomer_first, me, roster);
        reveal_with_fuel(heard, 3);
        assert(members[members.len() - 1] == last);
        if last.0 == me {
            assert(!table::has_key(init, me)) by {
                if table::has_key(init, me) {
                    let i = choose|i: int| 0 <= i < init.len() && #[trigger] init[i].0 == me;
                    assert(members[i].0 == members[members.len() - 1].0);
                }
            }
            assert(table::has_key(members, me));
        } else if table::has_key(members, me) {
            let i = choose|i: int| 0 <= i < members.len() && #[trigger] members[i].0 == me;
            assert(init[i].0 == me);
            assert(table::has_key(init, me));
        } else {
            assert(!table::has_key(init, me)) by {
                if table::has_key(init, me) {
                    let i = choose|i: int| 0 <= i < init.len() && #[trigger] init[i].0 == me;
                    assert(members[i].0 == me);
                }
            }
        }
    }
}

/// What an introduction tells the newcomer.
proof fn lemma_introduction_to_newcomer(
    members: Seq<(SocketAddr, (SocketAddr, u32))>,
    conn: SocketAddr,
    audio: SocketAddr,
    sample_rate: u32,
    newcomer_first: bool,
)
    requires
        table::keys_distinct(members),
        !table::has_key(members, conn),
        audio_distinct(table::map_of(members)),
    ensures
        heard(
            Map::empty(),
            introduction(members, conn, audio, sample_rate, newcomer_first),
            conn,
        ) == known_to(table::map_of(members), conn),
    decreases members.len(),
{
    let notices = introduction(members, conn, audio, sample_rate, newcomer_first);
    let present = table::map_of(members);
    if members.len() == 0 {
        assert(known_to(present, conn) =~= Map::<SocketAddr, u32>::empty());
    } else {
        let init = members.drop_last();
        let last = members.last();
        let prior = introduction(init, conn, audio, sample_rate, newcomer_first);
        assert(notices.drop_last().drop_last() =~= prior);
        assert(members[members.len() - 1] == last);
        assert forall|i: int, j: int| 0 <= i < j < init.len() implies #[trigger] init[i].0
            != #[trigger] init[j].0 by {
            assert(members[i].0 != members[j].0);
        }
        assert forall|k: SocketAddr| table::has_key(init, k) implies k != last.0
            && table::has_key(members, k) by {
            let i = choose|i: int| 0 <= i < init.len() && #[trigger] init[i].0 == k;
            assert(members[i].0 == k);
            assert(members[i].0 != members[members.len() - 1].0);
        }
        assert(!table::has_key(init, conn));
        table::lemma_with_entry(init, last.0, last.1);
        assert(table::with_entry(init, last.0, last.1) =~= members);
        let before = table::map_of(init);
        assert(present == before.insert(last.0, last.1));
        assert(audio_distinct(before)) by {
            assert forall|a: SocketAddr, b: SocketAddr|
                #![trigger before.contains_key(a), before.contains_key(b)]
                before.contains_key(a) && before.contains_key(b) && a != b implies before[a].0
                != before[b].0 by {
                assert(present.contains_key(a) && present.contains_key(b));
                assert(a != last.0 && b != last.0);
            }
        }
        lemma_introduction_to_newcomer(init, conn, audio, sample_rate, newcomer_first);
        assert(last.0 != conn);
        lemma_known_after_join(before, last.0, last.1.0, last.1.1, conn);
        assert(last.1 == (last.1.0, last.1.1));
        reveal_with_fuel(heard, 3);
    }
}

/// An introduction introduces.
pub proof fn lemma_introduction(
    members: Seq<(SocketAddr, (SocketAddr, u32))>,
    conn: SocketAddr,
    audio: SocketAddr,
    sample_rate: u32,
    newcomer_first: bool,
)
    requires
        table::keys_distinct(members),
        !table::has_key(members, conn),
        audio_distinct(table::map_of(members)),
    ensures
        introduces(
            introduction(members, conn, audio, sample_rate, newcomer_first),
            table::map_of(members),
            conn,
            audio,
            sample_rate,
        ),
{
    let notices = introduction(members, conn, audio, sample_rate, newcomer_first);
    lemma_introduction_to_newcomer(members, conn, audio, sample_rate, newcomer_first);
    assert forall|me: SocketAddr, roster: Roster|
        table::map_of(members).contains_key(me) && me != conn implies #[trigger] heard(
        roster,
        notices,
        me,
    ) == roster.insert(audio, sample_rate) by {
        lemma_introduction_to_member(
            members,
            conn,
            audio,
            sample_rate,
            newcomer_first,
            me,
            roster,
        );
    }
}

/// What a dismissal tells a member, and what it tells anybody else.
pub proof fn lemma_dismissal_to_member(
    members: Seq<(SocketAddr, (SocketAddr, u32))>,
    audio: SocketAddr,
    me: SocketAddr,
    roster: Roster,
)
    requires
        table::keys_distinct(members),
    ensures
        heard(roster, dismissal(members, audio), me) == if table::has_key(members, me) {
            roster.remove(audio)
        } else {
            roster
        },
    decreases members.len(),
{
    if members.len() != 0 {
        let init = members.drop_last();
        assert(dismissal(members, audio).drop_last() =~= dismissal(init, audio));
        assert forall|i: int, j: int| 0 <= i < j < init.len() implies #[trigger] init[i].0
            != #[trigger] init[j].0 by {
            assert(members[i].0 != members[j].0);
        }
        lemma_dismissal_to_member(init, audio, me, roster);
        assert forall|i: int| 0 <= i < init.len() implies #[trigger] init[i] == members[i] by {}
        if table::has_key(init, me) {
            let i = choose|i: int| 0 <= i < init.len() && #[trigger] init[i].0 == me;
            assert(members[i].0 == me);
            assert(members[members.len() - 1].0 != me);
        } else if table::has_key(members, me) {
            let i = choose|i: int| 0 <= i < members.len() && #[trigger] members[i].0 == me;
            if i < init.len() {
                assert(init[i].0 == me);
            }
        } else {
            assert(members[members.len() - 1].0 != me);
        }
    }
}

/// A dismissal dismisses.
pub proof fn lemma_dismissal(members: Seq<(SocketAddr, (SocketAddr, u32))>, audio: SocketAddr)
    requires
        table::keys_distinct(members),
    ensures
        dismisses(dismissal(members, audio), table::map_of(members), audio),
{
    assert forall|me: SocketAddr, roster: Roster|
        table::map_of(members).contains_key(me) implies #[trigger] heard(
        roster,
        dismissal(members, audio),
        me,
    ) == roster.remove(audio) by {
        lemma_dismissal_to_member(members, audio, me, roster);
    }
}

} // verus!
