// Packet capture: a running flag and the frame ring the capture fills.
use vstd::prelude::*;
use vstd::arithmetic::power2::{pow2, lemma2_to64};
use crate::io::ring_buffer::{MPSCRingBuffer, is_power_of_two};
use crate::{Component, SystemError, HealthStatus};

verus! {

/// Capture state: whether it runs, and the ring of captured frames.
pub struct PacketCapture {
    pub running: bool,
    pub buffer: MPSCRingBuffer,
}

impl PacketCapture {
    /// A stopped capture with an empty 64MB ring.
    pub fn new() -> (r: Result<Self, std::io::Error>)
        ensures
            r is Ok,
            r matches Ok(c) ==> {
                &&& !c.running
                &&& c.buffer.wf()
                &&& c.buffer@ == Seq::<Seq<u8>>::empty()
                &&& c.buffer.capacity() == 67_108_864
            },
    {
        proof {
            lemma2_to64();
            assert(pow2(26) == 67_108_864);
            assert(is_power_of_two(67_108_864usize));
        }
        Ok(PacketCapture { running: false, buffer: MPSCRingBuffer::new(67_108_864) })
    }
}

impl Component for PacketCapture {
    fn name(&self) -> (r: &'static str)
        ensures
            r@ == "PacketCapture"@,
    {
        "PacketCapture"
    }

    fn start(&mut self) -> (r: Result<(), SystemError>)
        ensures
            r is Ok,
            final(self).running,
    {
        self.running = true;
        Ok(())
    }

    fn stop(&mut self) -> (r: Result<(), SystemError>)
        ensures
            r is Ok,
            !final(self).running,
    {
        self.running = false;
        Ok(())
    }

    fn health_check(&self) -> (h: HealthStatus)
        ensures
            h == HealthStatus::Healthy,
    {
        HealthStatus::Healthy
    }
}

} // verus!
