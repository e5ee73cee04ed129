use vstd::prelude::*;

verus! {

/// Where an enum type is used in a supergraph: in input positions, output
/// positions, or both.
#[derive(Debug, Clone, Copy, PartialEq, Eq, Structural)]
pub enum EnumPosition {
    Input,
    Output,
    Both,
}

/// The position recorded after an enum seen at `current` is seen again at
/// `seen`: unchanged when both agree, `Both` otherwise.
pub open spec fn merged_position(current: EnumPosition, seen: EnumPosition) -> EnumPosition {
    if current == seen {
        current
    } else {
        EnumPosition::Both
    }
}

/// Usage information tracked for one enum type while merging subgraphs.
pub struct EnumUsageInfo {
    pub position: EnumPosition,
}

impl EnumUsageInfo {
    /// Starts tracking an enum first seen at `position`.
    pub fn new(position: EnumPosition) -> (info: Self)
        ensures
            info.position == position,
    {
        EnumUsageInfo { position }
    }

    /// Records one more use of the enum at `seen`.
    pub fn update_position(&mut self, seen: EnumPosition)
        ensures
            final(self).position == merged_position(old(self).position, seen),
    {
        if self.position != seen {
            self.position = EnumPosition::Both;
        }
    }
}

/// The position recorded after an enum first seen at `start` is seen at
/// each of `seen`, in order.
pub open spec fn position_after(start: EnumPosition, seen: Seq<EnumPosition>) -> EnumPosition
    decreases seen.len(),
{
    if seen.len() == 0 {
        start
    } else {
        merged_position(position_after(start, seen.drop_last()), seen.last())
    }
}

/// Merging positions does not depend on the order of the two uses.
pub proof fn law_merge_commutative(a: EnumPosition, b: EnumPosition)
    ensures
        merged_position(a, b) == merged_position(b, a),
{
}

/// Two further uses give the same position in either order.
pub proof fn law_updates_commute(start: EnumPosition, a: EnumPosition, b: EnumPosition)
    ensures
        merged_position(merged_position(start, a), b) == merged_position(
            merged_position(start, b),
            a,
        ),
{
}

/// Seeing an enum again at a position already recorded changes nothing.
pub proof fn law_update_idempotent(start: EnumPosition, a: EnumPosition)
    ensures
        merged_position(start, start) == start,
        merged_position(merged_position(start, a), a) == merged_position(start, a),
{
}

/// Once an enum is used in both positions it stays so.
pub proof fn law_both_absorbs(seen: EnumPosition)
    ensures
        merged_position(EnumPosition::Both, seen) == EnumPosition::Both,
{
}

/// After any sequence of uses, the position is the starting one when every
/// use agrees with it, and `Both` otherwise.
pub proof fn law_position_after_uses(start: EnumPosition, seen: Seq<EnumPosition>)
    ensures
        position_after(start, seen) == (if (forall|i: int| 0 <= i < seen.len() ==> seen[i] == start) {
            start
        } else {
            EnumPosition::Both
        }),
    decreases seen.len(),
{
    if seen.len() > 0 {
        let prefix = seen.drop_last();
        law_position_after_uses(start, prefix);
        if forall|i: int| 0 <= i < prefix.len() ==> prefix[i] == start {
            if seen.last() == start {
                assert forall|i: int| 0 <= i < seen.len() implies seen[i] == start by {
                    if i < prefix.len() {
                        assert(prefix[i] == seen[i]);
                    }
                }
            }
        } else {
            let k = choose|k: int| 0 <= k < prefix.len() && prefix[k] != start;
            assert(seen[k] != start);
        }
    }
}

} // verus!
