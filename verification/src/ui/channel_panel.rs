//! Channels shown on the oscilloscope: name, colour, visibility and type.
use vstd::prelude::*;
use crate::pipeline::sample::ValueType;
use crate::text::str_eq;

verus! {

#[verifier::external_type_specification]
#[verifier::external_body]
pub struct ExColor32(egui::Color32);

/// The most channels shown at once.
pub const MAX_CHANNELS: usize = 8;

/// One channel of the channel panel.
pub struct ChannelEntry {
    pub name: String,
    pub color: egui::Color32,
    pub visible: bool,
    pub value_type: ValueType,
}

/// The channels of `s` whose name is not `name`, in order.
pub open spec fn without_name(s: Seq<ChannelEntry>, name: Seq<char>) -> Seq<ChannelEntry>
    decreases s.len(),
{
    if s.len() == 0 {
        s
    } else if s.last().name@ == name {
        without_name(s.drop_last(), name)
    } else {
        without_name(s.drop_last(), name).push(s.last())
    }
}

/// Channel panel: the list of channels added to the oscilloscope.
pub struct ChannelPanel {
    pub channels: Vec<ChannelEntry>,
}

impl ChannelPanel {
    pub fn new() -> (p: Self)
        ensures
            p.channels@ == Seq::<ChannelEntry>::empty(),
    {
        Self { channels: Vec::new() }
    }

    /// Number of channels.
    pub fn channel_count(&self) -> (n: usize)
        ensures
            n == self.channels@.len(),
    {
        self.channels.len()
    }

    /// Adds a visible channel, unless eight channels are already there.
    pub fn add_channel(&mut self, name: String, color: egui::Color32, value_type: ValueType)
        ensures
            old(self).channels@.len() < MAX_CHANNELS ==> final(self).channels@ == old(
                self,
            ).channels@.push(ChannelEntry { name, color, visible: true, value_type }),
            old(self).channels@.len() >= MAX_CHANNELS ==> final(self).channels@ == old(
                self,
            ).channels@,
    {
        if self.channels.len() < MAX_CHANNELS {
            self.channels.push(ChannelEntry { name, color, visible: true, value_type });
        }
    }

    /// Removes the channel at `index`, if there is one.
    pub fn remove_channel(&mut self, index: usize)
        ensures
            index < old(self).channels@.len() ==> final(self).channels@ == old(
                self,
            ).channels@.remove(index as int),
            index >= old(self).channels@.len() ==> final(self).channels@ == old(self).channels@,
    {
        if index < self.channels.len() {
            self.channels.remove(index);
        }
    }

    /// Removes every channel named `name`, keeping the others in order.
    pub fn remove_by_name(&mut self, name: &str)
        ensures
            final(self).channels@ == without_name(old(self).channels@, name@),
    {
        let ghost orig = self.channels@;
        let n = self.channels.len();
        let mut i: usize = 0;
        let mut k: usize = 0;
        while k < n
            invariant
                n == orig.len(),
                k <= orig.len(),
                i <= k,
                without_name(orig.subrange(0, k as int), name@).len() == i,
                self.channels@ == without_name(orig.subrange(0, k as int), name@) + orig.subrange(
                    k as int,
                    orig.len() as int,
                ),
            decreases orig.len() - k,
        {
            proof {
                assert(self.channels@[i as int] == orig[k as int]);
                let pre = orig.subrange(0, k + 1);
                assert(pre.drop_last() =~= orig.subrange(0, k as int));
                assert(pre.last() == orig[k as int]);
            }
            if str_eq(self.channels[i].name.as_str(), name) {
                self.channels.remove(i);
                assert(self.channels@ =~= without_name(orig.subrange(0, k + 1), name@)
                    + orig.subrange(k + 1, orig.len() as int));
            } else {
                i = i + 1;
                assert(self.channels@ =~= without_name(orig.subrange(0, k + 1), name@)
                    + orig.subrange(k + 1, orig.len() as int));
            }
            k = k + 1;
        }
        assert(orig.subrange(0, orig.len() as int) =~= orig);
        assert(self.channels@ =~= without_name(orig, name@));
    }

    /// Whether a channel named `name` is there.
    pub fn has_channel(&self, name: &str) -> (b: bool)
        ensures
            b == exists|i: int| 0 <= i < self.channels@.len() && self.channels@[i].name@ == name@,
    {
        let mut i: usize = 0;
        while i < self.channels.len()
            invariant
                i <= self.channels@.len(),
                forall|k: int| 0 <= k < i ==> self.channels@[k].name@ != name@,
            decreases self.channels@.len() - i,
        {
            if str_eq(self.channels[i].name.as_str(), name) {
                return true;
            }
            i = i + 1;
        }
        false
    }

    /// Visibility of each channel, in order.
    pub fn visibility(&self) -> (v: Vec<bool>)
        ensures
            v@ == self.channels@.map_values(|c: ChannelEntry| c.visible),
    {
        let mut v: Vec<bool> = Vec::new();
        let mut i: usize = 0;
        while i < self.channels.len()
            invariant
                i <= self.channels@.len(),
                v@ == self.channels@.subrange(0, i as int).map_values(|c: ChannelEntry| c.visible),
            decreases self.channels@.len() - i,
        {
            v.push(self.channels[i].visible);
            i = i + 1;
            assert(v@ =~= self.channels@.subrange(0, i as int).map_values(
                |c: ChannelEntry| c.visible,
            ));
        }
        assert(self.channels@.subrange(0, i as int) =~= self.channels@);
        v
    }
}

} // verus!
