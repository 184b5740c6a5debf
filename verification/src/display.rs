//! The state behind the scrolling chart of a signal, and the decisions of
//! the loop that shows it: what a key or a tick of the clock does.

use vstd::prelude::*;

verus! {

/// What the chart's loop waits for: a key that was pressed, or a tick of the
/// clock.
pub enum Event<I> {
    Input(I),
    Tick,
}

/// A key of the terminal.
#[derive(Clone, Copy, Debug, PartialEq, Eq, Structural)]
pub enum Key {
    Backspace,
    Left,
    Right,
    Up,
    Down,
    Home,
    End,
    PageUp,
    PageDown,
    BackTab,
    Delete,
    Insert,
    /// A function key, by its number.
    F(u8),
    /// A character typed alone.
    Char(char),
    /// A character typed with Alt held.
    Alt(char),
    /// A character typed with Ctrl held.
    Ctrl(char),
    Null,
    Esc,
}

/// How events are produced: the key that ends the reading of keys, and the
/// time between two ticks in milliseconds.
#[derive(Debug, Clone, Copy)]
pub struct Config {
    pub exit_key: Key,
    pub tick_rate: u64,
}

impl Default for Config {
    /// The exit key is `q` and the clock ticks every 100 milliseconds.
    fn default() -> (config: Config)
        ensures
            config.exit_key == Key::Char('q'),
            config.tick_rate == 100,
    {
        Config { exit_key: Key::Char('q'), tick_rate: 100 }
    }
}

impl Config {
    /// Whether the reading of keys ends once `key` has been passed on: it
    /// does at the exit key, unless the exit key is being ignored.
    pub fn ends_input(&self, ignore_exit_key: bool, key: Key) -> (ends: bool)
        ensures
            ends == (!ignore_exit_key && key == self.exit_key),
    {
        !ignore_exit_key && key == self.exit_key
    }
}

/// How many points the chart holds at once.
pub const SHOWN_POINTS: usize = 200;

/// How far the chart looks along the time axis.
pub const WINDOW_WIDTH: usize = 100;

/// By how many points a tick moves the chart on.
pub const STEP: usize = 5;

/// The points of a signal: each sample with the time step at which it was
/// taken.
pub open spec fn points(data: Seq<i16>) -> Seq<(usize, i16)> {
    Seq::new(data.len(), |i: int| (i as usize, data[i]))
}

/// The largest sample of a signal that is not empty.
pub open spec fn largest(data: Seq<i16>) -> i16
    recommends
        data.len() > 0,
    decreases data.len(),
{
    if data.len() <= 1 {
        data[0]
    } else if data.last() >= largest(data.drop_last()) {
        data.last()
    } else {
        largest(data.drop_last())
    }
}

/// The smallest sample of a signal that is not empty.
pub open spec fn smallest(data: Seq<i16>) -> i16
    recommends
        data.len() > 0,
    decreases data.len(),
{
    if data.len() <= 1 {
        data[0]
    } else if data.last() <= smallest(data.drop_last()) {
        data.last()
    } else {
        smallest(data.drop_last())
    }
}

/// The largest sample is one of the samples, and none is larger.
pub proof fn lemma_largest(data: Seq<i16>)
    requires
        data.len() > 0,
    ensures
        data.contains(largest(data)),
        forall|i: int| 0 <= i < data.len() ==> data[i] <= largest(data),
    decreases data.len(),
{
    if data.len() > 1 {
        let front = data.drop_last();
        lemma_largest(front);
        let at = choose|i: int| 0 <= i < front.len() && front[i] == largest(front);
        assert(data[at] == largest(front));
        assert(data[data.len() - 1] == data.last());
        assert forall|i: int| 0 <= i < data.len() implies data[i] <= largest(data) by {
            if i < front.len() {
                assert(front[i] == data[i]);
            }
        }
    } else {
        assert(data[0] == largest(data));
    }
}

/// The smallest sample is one of the samples, and none is smaller.
pub proof fn lemma_smallest(data: Seq<i16>)
    requires
        data.len() > 0,
    ensures
        data.contains(smallest(data)),
        forall|i: int| 0 <= i < data.len() ==> data[i] >= smallest(data),
    decreases data.len(),
{
    if data.len() > 1 {
        let front = data.drop_last();
        lemma_smallest(front);
        let at = choose|i: int| 0 <= i < front.len() && front[i] == smallest(front);
        assert(data[at] == smallest(front));
        assert(data[data.len() - 1] == data.last());
        assert forall|i: int| 0 <= i < data.len() implies data[i] >= smallest(data) by {
            if i < front.len() {
                assert(front[i] == data[i]);
            }
        }
    } else {
        assert(data[0] == smallest(data));
    }
}

/// The chart's state: the points still to come, the points held for
/// display, the stretch of the time axis on show, the size of each
/// frequency's bar, and the range of the amplitude axis.
pub struct App {
    pub signal: Vec<(usize, i16)>,
    pub signal_buf: Vec<(usize, i16)>,
    pub window: (usize, usize),
    pub frequency: Vec<u64>,
    pub max: i16,
    pub min: i16,
}

/// An `App` as mathematical values.
pub struct AppView {
    pub signal: Seq<(usize, i16)>,
    pub signal_buf: Seq<(usize, i16)>,
    pub window: (usize, usize),
    pub frequency: Seq<u64>,
    pub max: i16,
    pub min: i16,
}

impl View for App {
    type V = AppView;

    open spec fn view(&self) -> AppView {
        AppView {
            signal: self.signal@,
            signal_buf: self.signal_buf@,
            window: self.window,
            frequency: self.frequency@,
            max: self.max,
            min: self.min,
        }
    }
}

impl AppView {
    /// The state in which the chart of a signal opens: the first points
    /// are held for display, the rest are to come, and the time axis
    /// starts at zero.
    pub open spec fn opening(data: Seq<i16>, frequency: Seq<u64>) -> AppView
        recommends
            data.len() >= SHOWN_POINTS,
    {
        AppView {
            signal: points(data).skip(SHOWN_POINTS as int),
            signal_buf: points(data).take(SHOWN_POINTS as int),
            window: (0, WINDOW_WIDTH),
            frequency,
            max: largest(data),
            min: smallest(data),
        }
    }

    /// The state one tick later: the oldest points held have left, as many
    /// of those to come have joined, and the time axis has moved on by as
    /// much.
    pub open spec fn ticked(self) -> AppView
        recommends
            self.wf(),
            self.signal.len() >= STEP,
    {
        AppView {
            signal: self.signal.skip(STEP as int),
            signal_buf: self.signal_buf.skip(STEP as int) + self.signal.take(STEP as int),
            window: ((self.window.0 + STEP) as usize, (self.window.1 + STEP) as usize),
            frequency: self.frequency,
            max: self.max,
            min: self.min,
        }
    }

    /// The state after `ticks` ticks.
    pub open spec fn after_ticks(self, ticks: nat) -> AppView
        decreases ticks,
    {
        if ticks == 0 {
            self
        } else {
            self.after_ticks((ticks - 1) as nat).ticked()
        }
    }

    /// What holds of every state of a chart: it holds a fixed number of
    /// points; the time axis has a fixed width; the points held and those
    /// to come are consecutive in time, from the start of the time axis
    /// on; and every amplitude lies within the amplitude axis.
    pub open spec fn wf(self) -> bool {
        &&& self.signal_buf.len() == SHOWN_POINTS
        &&& self.window.1 == self.window.0 + WINDOW_WIDTH
        &&& self.window.0 + SHOWN_POINTS + self.signal.len() <= usize::MAX
        &&& forall|i: int|
            0 <= i < self.signal_buf.len() ==> {
                &&& (#[trigger] self.signal_buf[i]).0 == self.window.0 + i
                &&& self.min <= self.signal_buf[i].1 <= self.max
            }
        &&& forall|i: int|
            0 <= i < self.signal.len() ==> {
                &&& (#[trigger] self.signal[i]).0 == self.window.0 + SHOWN_POINTS + i
                &&& self.min <= self.signal[i].1 <= self.max
            }
    }
}

impl App {
    /// Opens the chart of a signal, given the size of each frequency's bar.
    pub fn new(data: Vec<i16>, frequency: Vec<u64>) -> (app: App)
        requires
            data.len() >= SHOWN_POINTS,
        ensures
            app@ == AppView::opening(data@, frequency@),
            app@.wf(),
    {
        let mut max: i16 = data[0];
        let mut min: i16 = data[0];
        let mut signal: Vec<(usize, i16)> = Vec::new();
        let mut signal_buf: Vec<(usize, i16)> = Vec::new();
        let mut at: usize = 0;
        assert(data@.take(1) =~= seq![data@[0]]);
        while at < data.len()
            invariant
                data.len() >= SHOWN_POINTS,
                at <= data.len(),
                at > 0 ==> max == largest(data@.take(at as int)),
                at > 0 ==> min == smallest(data@.take(at as int)),
                at == 0 ==> max == data@[0] && min == data@[0],
                at <= SHOWN_POINTS ==> signal_buf@ == points(data@).take(at as int) && signal@.len()
                    == 0,
                at > SHOWN_POINTS ==> signal_buf@ == points(data@).take(SHOWN_POINTS as int)
                    && signal@ == points(data@).subrange(SHOWN_POINTS as int, at as int),
            decreases data.len() - at,
        {
            let sample = data[at];
            proof {
                let seen = data@.take(at + 1);
                assert(seen.drop_last() =~= data@.take(at as int));
                assert(seen.last() == sample);
            }
            if at == 0 || sample >= max {
                max = sample;
            }
            if at == 0 || sample <= min {
                min = sample;
            }
            if at < SHOWN_POINTS {
                signal_buf.push((at, sample));
                assert(signal_buf@ =~= points(data@).take(at + 1));
            } else {
                signal.push((at, sample));
                assert(signal@ =~= points(data@).subrange(SHOWN_POINTS as int, at + 1));
            }
            at += 1;
        }
        proof {
            assert(data@.take(at as int) =~= data@);
            assert(signal@ =~= points(data@).skip(SHOWN_POINTS as int));
            lemma_largest(data@);
            lemma_smallest(data@);
        }
        App { signal, signal_buf, window: (0, WINDOW_WIDTH), frequency, max, min }
    }

    /// Moves the chart on by one tick.
    pub fn update(&mut self)
        requires
            old(self)@.wf(),
            old(self).signal.len() >= STEP,
        ensures
            final(self)@ == old(self)@.ticked(),
            final(self)@.wf(),
    {
        let mut moved: usize = 0;
        while moved < STEP
            invariant
                moved <= STEP,
                old(self)@.wf(),
                old(self).signal.len() >= STEP,
                self.signal@ == old(self).signal@.skip(moved as int),
                self.signal_buf@ == old(self).signal_buf@.skip(moved as int) + old(
                    self,
                ).signal@.take(moved as int),
                self.window == old(self).window,
                self.frequency == old(self).frequency,
                self.max == old(self).max,
                self.min == old(self).min,
            decreases STEP - moved,
        {
            self.signal_buf.remove(0);
            let point = self.signal.remove(0);
            self.signal_buf.push(point);
            proof {
                assert(self.signal@ =~= old(self).signal@.skip(moved + 1));
                assert(self.signal_buf@ =~= old(self).signal_buf@.skip(moved + 1) + old(
                    self,
                ).signal@.take(moved + 1));
            }
            moved += 1;
        }
        self.window = (self.window.0 + STEP, self.window.1 + STEP);
    }

    /// What an event does to the chart, and whether the loop ends with it:
    /// the key `q` ends the loop, any other key does nothing, and a tick
    /// moves the chart on.
    pub fn on_event(&mut self, event: Event<Key>) -> (quit: bool)
        requires
            old(self)@.wf(),
            event is Tick ==> old(self).signal.len() >= STEP,
        ensures
            final(self)@.wf(),
            match event {
                Event::Input(key) => quit == (key == Key::Char('q')) && final(self)@ == old(
                    self,
                )@,
                Event::Tick => !quit && final(self)@ == old(self)@.ticked(),
            },
    {
        match event {
            Event::Input(key) => key == Key::Char('q'),
            Event::Tick => {
                self.update();
                false
            },
        }
    }
}

/// A chart that opens on a signal is in a state of which `wf` holds.
pub proof fn lemma_opening_wf(data: Seq<i16>, frequency: Seq<u64>)
    requires
        SHOWN_POINTS <= data.len() <= usize::MAX,
    ensures
        AppView::opening(data, frequency).wf(),
{
    lemma_largest(data);
    lemma_smallest(data);
}

/// A tick keeps `wf`, as long as there are points to come for it.
pub proof fn lemma_ticked_wf(state: AppView)
    requires
        state.wf(),
        state.signal.len() >= STEP,
    ensures
        state.ticked().wf(),
{
}

/// After any number of ticks the chart holds the stretch of the signal that
/// starts as many steps in, the time axis starts there too, and the points
/// to come are the rest of the signal: for every number of ticks for which
/// the signal has points.
pub proof fn lemma_after_ticks(data: Seq<i16>, frequency: Seq<u64>, ticks: nat)
    requires
        SHOWN_POINTS + STEP * ticks <= data.len() <= usize::MAX,
    ensures
        AppView::opening(data, frequency).after_ticks(ticks).wf(),
        AppView::opening(data, frequency).after_ticks(ticks).signal_buf == points(data).subrange(
            STEP * ticks,
            STEP * ticks + SHOWN_POINTS,
        ),
        AppView::opening(data, frequency).after_ticks(ticks).signal == points(data).skip(
            STEP * ticks + SHOWN_POINTS,
        ),
        AppView::opening(data, frequency).after_ticks(ticks).window == (
            (STEP * ticks) as usize,
            (STEP * ticks + WINDOW_WIDTH) as usize,
        ),
        AppView::opening(data, frequency).after_ticks(ticks).frequency == frequency,
        AppView::opening(data, frequency).after_ticks(ticks).max == largest(data),
        AppView::opening(data, frequency).after_ticks(ticks).min == smallest(data),
    decreases ticks,
{
    let opening = AppView::opening(data, frequency);
    if ticks == 0 {
        lemma_opening_wf(data, frequency);
        assert(opening.signal_buf =~= points(data).subrange(0, SHOWN_POINTS as int));
    } else {
        let earlier = (ticks - 1) as nat;
        lemma_after_ticks(data, frequency, earlier);
        let before = opening.after_ticks(earlier);
        let after = opening.after_ticks(ticks);
        assert(after == before.ticked());
        lemma_ticked_wf(before);
        assert(after.signal_buf =~= points(data).subrange(
            STEP * ticks,
            STEP * ticks + SHOWN_POINTS,
        ));
        assert(after.signal =~= points(data).skip(STEP * ticks + SHOWN_POINTS));
    }
}

} // verus!
