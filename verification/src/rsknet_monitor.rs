use vstd::prelude::*;

verus! {

/// The wake-up signal that idle workers wait on. `signaled` is set by
/// `wake_up` and consumed by the `wait_data` that sees it; wake-ups that
/// nobody has consumed yet count as one.
pub struct RskynetMonitor {
    pub signaled: bool,
}

impl RskynetMonitor {
    /// `new` is `old` after one check that answered `ready`.
    pub open spec fn waited(old: RskynetMonitor, new: RskynetMonitor, ready: bool) -> bool {
        &&& ready == old.signaled
        &&& !new.signaled
    }

    pub fn new() -> (m: Self)
        ensures
            !m.signaled,
    {
        RskynetMonitor { signaled: false }
    }

    /// Raises the signal.
    pub fn wake_up(&mut self)
        ensures
            final(self).signaled,
    {
        self.signaled = true;
    }

    /// One check of a waiting worker: consumes the signal and answers
    /// whether it was raised. A worker that gets `false` sleeps until the
    /// next wake-up and checks again.
    pub fn wait_data(&mut self) -> (ready: bool)
        ensures
            RskynetMonitor::waited(*old(self), *final(self), ready),
    {
        let ready = self.signaled;
        self.signaled = false;
        ready
    }
}

/// A wake-up lets exactly one check through: after `wake_up`, the next
/// `wait_data` answers `true` and the one after it `false`, however many
/// wake-ups came before.
pub proof fn law_wake_up_once(
    woken: RskynetMonitor,
    m2: RskynetMonitor,
    m3: RskynetMonitor,
    r2: bool,
    r3: bool,
)
    requires
        woken.signaled,
        RskynetMonitor::waited(woken, m2, r2),
        RskynetMonitor::waited(m2, m3, r3),
    ensures
        r2,
        !r3,
{
}

} // verus!
