//! The list of online devices the relay reports, kept up to date from its messages.
use crate::protocol::envelope::OnlineDevice;
use crate::text::str_eq;
use vstd::prelude::*;

verus! {

pub open spec fn device_ids(devs: Seq<OnlineDevice>) -> Seq<Seq<char>> {
    devs.map_values(|d: OnlineDevice| d.device_id@)
}

/// The devices whose id is not `id`, in order.
pub open spec fn without_device(devs: Seq<OnlineDevice>, id: Seq<char>) -> Seq<OnlineDevice>
    decreases devs.len(),
{
    if devs.len() == 0 {
        Seq::empty()
    } else if devs.last().device_id@ == id {
        without_device(devs.drop_last(), id)
    } else {
        without_device(devs.drop_last(), id).push(devs.last())
    }
}

/// A device came online: it is added at the end unless a device with its id is already
/// listed. Tells whether the list changed.
pub fn device_online(devs: &mut Vec<OnlineDevice>, device: OnlineDevice) -> (changed: bool)
    ensures
        changed == !device_ids(old(devs)@).contains(device.device_id@),
        final(devs)@ == (if changed {
            old(devs)@.push(device)
        } else {
            old(devs)@
        }),
{
    let n = devs.len();
    let mut i: usize = 0;
    while i < n
        invariant
            i <= n,
            n == devs@.len(),
            forall|k: int| 0 <= k < i ==> devs@[k].device_id@ != device.device_id@,
        decreases n - i,
    {
        if str_eq(devs[i].device_id.as_str(), device.device_id.as_str()) {
            assert(device_ids(devs@)[i as int] == device.device_id@);
            return false;
        }
        i = i + 1;
    }
    assert(!device_ids(devs@).contains(device.device_id@)) by {
        if device_ids(devs@).contains(device.device_id@) {
            let k = choose|k: int| 0 <= k < device_ids(devs@).len() && device_ids(devs@)[k] == device.device_id@;
            assert(devs@[k].device_id@ == device.device_id@);
        }
    }
    devs.push(device);
    true
}

/// A device went offline: every entry with its id is removed.
pub fn device_offline(devs: &mut Vec<OnlineDevice>, device_id: &str)
    ensures
        final(devs)@ == without_device(old(devs)@, device_id@),
{
    let ghost all = devs@;
    let mut rest: Vec<OnlineDevice> = Vec::new();
    std::mem::swap(devs, &mut rest);
    let mut kept: Vec<OnlineDevice> = Vec::new();
    assert(without_device(all, device_id@) =~= without_device(rest@, device_id@) + kept@);
    while rest.len() > 0
        invariant
            without_device(all, device_id@) == without_device(rest@, device_id@) + kept@,
        decreases rest@.len(),
    {
        let ghost r = rest@;
        let d = rest.pop().unwrap();
        assert(rest@ == r.drop_last() && d == r.last());
        if !str_eq(d.device_id.as_str(), device_id) {
            let ghost k0 = kept@;
            kept.insert(0, d);
            assert(without_device(r, device_id@) == without_device(rest@, device_id@).push(d));
            assert(without_device(rest@, device_id@).push(d) + k0 =~= without_device(rest@, device_id@)
                + kept@);
        } else {
            assert(without_device(r, device_id@) == without_device(rest@, device_id@));
        }
    }
    assert(without_device(rest@, device_id@) =~= Seq::<OnlineDevice>::empty());
    assert(kept@ =~= without_device(all, device_id@));
    *devs = kept;
}

} // verus!
