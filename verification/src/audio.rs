//! Audio triggers: which looping sound plays, and the queue of events that
//! the audio layer drains once per frame.

use vstd::prelude::*;

verus! {

/// A cue for the audio layer.
#[derive(Debug, Clone, Copy, PartialEq, Eq, Hash)]
pub enum AudioEvent {
    /// Thruster firing sound (loopable)
    ThrusterLoop,
    /// Tractor beam activation sound
    BeamActivation,
    /// Fuel pickup/refill sound
    FuelPickup,
    /// Player death/crash sound
    Death,
    /// UI button click sound
    ButtonClick,
}

/// Which looping sounds are playing.
#[derive(Debug, Clone, Copy)]
pub struct AudioState {
    pub thruster_playing: bool,
}

impl AudioState {
    /// All sounds stopped.
    pub fn new() -> (r: Self)
        ensures
            !r.thruster_playing,
    {
        Self { thruster_playing: false }
    }

    /// Sets whether the thruster sounds; returns whether that changed.
    pub fn update_thruster(&mut self, should_play: bool) -> (changed: bool)
        ensures
            final(self).thruster_playing == should_play,
            changed == (old(self).thruster_playing != should_play),
    {
        let changed = self.thruster_playing != should_play;
        self.thruster_playing = should_play;
        changed
    }

    /// Sets whether the thruster sounds, and returns the event that starts
    /// its loop where it began to sound.
    pub fn thruster_event(&mut self, should_play: bool) -> (r: Option<AudioEvent>)
        ensures
            final(self).thruster_playing == should_play,
            r == if should_play && !old(self).thruster_playing {
                Some(AudioEvent::ThrusterLoop)
            } else {
                None
            },
    {
        if self.update_thruster(should_play) && should_play {
            Some(AudioEvent::ThrusterLoop)
        } else {
            None
        }
    }

    /// Stops all looping sounds.
    pub fn stop_all(&mut self)
        ensures
            !final(self).thruster_playing,
    {
        self.thruster_playing = false;
    }
}

impl Default for AudioState {
    fn default() -> (r: Self)
        ensures
            !r.thruster_playing,
    {
        Self::new()
    }
}

/// The events queued during a frame, oldest first.
#[derive(Debug)]
pub struct AudioEventQueue {
    events: Vec<AudioEvent>,
}

impl View for AudioEventQueue {
    type V = Seq<AudioEvent>;

    closed spec fn view(&self) -> Seq<AudioEvent> {
        self.events@
    }
}

impl AudioEventQueue {
    /// An empty queue.
    pub fn new() -> (r: Self)
        ensures
            r@ == Seq::<AudioEvent>::empty(),
    {
        Self { events: Vec::new() }
    }

    /// Appends an event.
    pub fn push(&mut self, event: AudioEvent)
        ensures
            final(self)@ == old(self)@.push(event),
    {
        self.events.push(event);
    }

    /// Takes all queued events out, in the order in which they were pushed.
    pub fn drain(&mut self) -> (out: Vec<AudioEvent>)
        ensures
            out@ == old(self)@,
            final(self)@ == Seq::<AudioEvent>::empty(),
    {
        let mut out: Vec<AudioEvent> = Vec::new();
        std::mem::swap(&mut self.events, &mut out);
        out
    }

    /// Whether no event is queued.
    pub fn is_empty(&self) -> (r: bool)
        ensures
            r == (self@.len() == 0),
    {
        self.events.len() == 0
    }

    /// The number of queued events.
    pub fn len(&self) -> (r: usize)
        ensures
            r == self@.len(),
    {
        self.events.len()
    }
}

impl Default for AudioEventQueue {
    fn default() -> (r: Self)
        ensures
            r@ == Seq::<AudioEvent>::empty(),
    {
        Self::new()
    }
}

} // verus!
