//! The sleep timer, which closes the application after a while.

use vstd::prelude::*;
use crate::locale;
use crate::locale::t;
use crate::text;
use crate::text::{replace_all, signed_decimal_text};

verus! {

/// The sleep timer. While it does not run, its other fields are 0.
pub struct SleepTimer {
    pub running: bool,
    /// When it was started, in milliseconds since the epoch.
    pub start_ms: i64,
    pub duration_minutes: i32,
}

impl Default for SleepTimer {
    fn default() -> (r: Self)
        ensures
            r == SleepTimer::stopped(),
    {
        SleepTimer { running: false, start_ms: 0, duration_minutes: 0 }
    }
}

/// The milliseconds after which a timer of this duration fires: none for a duration that is no
/// number of minutes, and at most the largest `i32`.
pub open spec fn delay(duration_minutes: int) -> int {
    let ms = if duration_minutes < 0 {
        0
    } else {
        duration_minutes * 60 * 1000
    };
    if ms > i32::MAX {
        i32::MAX as int
    } else {
        ms
    }
}

/// What choosing the timer in the menu does.
pub enum SleepChoice {
    /// Stop the timer, update the window and announce this.
    Cancelled { announcement: String },
    /// Ask for the duration.
    Ask,
}

/// A timer that was started.
pub struct SleepStart {
    /// The milliseconds after which the timer fires.
    pub delay_ms: i32,
    pub announcement: String,
}

/// `content` announces, in some language, that the timer was set to this duration.
pub open spec fn announces_duration(duration_minutes: int, content: Seq<char>) -> bool {
    if duration_minutes == 1 {
        locale::translation_answer("Sleep timer set for 1 minute."@, content)
    } else {
        exists|template: Seq<char>| #[trigger]
            locale::translation_answer("Sleep timer set for %d minutes."@, template) && content
                == text::replaced(template, "%d"@, text::signed_decimal(duration_minutes))
    }
}

/// The milliseconds after which a timer of this duration fires.
pub fn delay_ms(duration_minutes: i32) -> (r: i32)
    ensures
        r == delay(duration_minutes as int),
{
    let minutes: u64 = if duration_minutes < 0 {
        0
    } else {
        duration_minutes as u64
    };
    let ms: u64 = minutes * 60 * 1000;
    if ms > i32::MAX as u64 {
        i32::MAX
    } else {
        ms as i32
    }
}

impl SleepTimer {
    /// The timer while it does not run.
    pub open spec fn stopped() -> SleepTimer {
        SleepTimer { running: false, start_ms: 0, duration_minutes: 0 }
    }

    /// The timer once it fired, where `pending` says that it has not fired yet. Ticks of other timers
    /// arrive here too, so a tick means something only if the timer was set and is not pending.
    pub open spec fn fires(self, pending: bool) -> bool {
        self.running && !pending
    }

    /// The user chose the timer in the menu: a timer that runs is cancelled.
    pub fn choose_entry(&mut self) -> (r: SleepChoice)
        ensures
            match r {
                SleepChoice::Cancelled { announcement } => {
                    &&& old(self).running
                    &&& *final(self) == SleepTimer::stopped()
                    &&& locale::translation_answer("Sleep timer cancelled."@, announcement@)
                },
                SleepChoice::Ask => !old(self).running && *final(self) == *old(self),
            },
    {
        if self.running {
            self.running = false;
            self.start_ms = 0;
            self.duration_minutes = 0;
            return SleepChoice::Cancelled { announcement: t("Sleep timer cancelled.") };
        }
        SleepChoice::Ask
    }

    /// Starts the timer at `now_ms`.
    pub fn start(&mut self, duration_minutes: i32, now_ms: i64) -> (r: SleepStart)
        ensures
            *final(self) == (SleepTimer { running: true, start_ms: now_ms, duration_minutes }),
            r.delay_ms == delay(duration_minutes as int),
            announces_duration(duration_minutes as int, r.announcement@),
    {
        self.running = true;
        self.start_ms = now_ms;
        self.duration_minutes = duration_minutes;
        let announcement = if duration_minutes == 1 {
            t("Sleep timer set for 1 minute.")
        } else {
            let template = t("Sleep timer set for %d minutes.");
            proof {
                reveal_strlit("%d");
                assert(locale::translation_answer("Sleep timer set for %d minutes."@, template@));
            }
            replace_all(template.as_str(), "%d", signed_decimal_text(duration_minutes).as_str())
        };
        SleepStart { delay_ms: delay_ms(duration_minutes), announcement }
    }

    /// A timer ticked. Gives whether the sleep timer fired: the positions are saved and the
    /// application closes.
    pub fn tick(&mut self, pending: bool) -> (r: bool)
        ensures
            r == old(self).fires(pending),
            *final(self) == (if r {
                SleepTimer::stopped()
            } else {
                *old(self)
            }),
    {
        if !self.running || pending {
            return false;
        }
        self.running = false;
        self.start_ms = 0;
        self.duration_minutes = 0;
        true
    }
}

/// A timer that was cancelled or has fired does not fire until it is started again.
pub proof fn law_stopped_timer_stays_silent(pending: bool)
    ensures
        !SleepTimer::stopped().fires(pending),
{
}

/// A timer does not fire before its time, and one that is not capped fires after its duration.
pub proof fn law_delay_is_the_duration(duration_minutes: int)
    requires
        0 <= duration_minutes,
    ensures
        delay(duration_minutes) <= duration_minutes * 60000,
        duration_minutes <= 35791 ==> delay(duration_minutes) == duration_minutes * 60000,
{
}

/// The timer fires after its minutes, in milliseconds, at once for a negative duration, and after the
/// longest time that can be set for a longer one.
pub proof fn law_delay_counts_the_minutes(minutes: i32, r: i32)
    requires
        call_ensures(delay_ms, (minutes,), r),
    ensures
        minutes <= 0 ==> r == 0,
        0 <= minutes && minutes * 60_000 <= i32::MAX ==> r == minutes * 60_000,
        minutes * 60_000 > i32::MAX ==> r == i32::MAX,
{
}

/// Starting the timer keeps the moment and the duration, sets the delay for that duration, and announces
/// it, one minute in a message of its own.
pub proof fn law_timer_is_started(
    timer: &mut SleepTimer,
    duration_minutes: i32,
    now_ms: i64,
    r: SleepStart,
    delay: i32,
)
    requires
        call_ensures(SleepTimer::start, (timer, duration_minutes, now_ms), r),
        call_ensures(delay_ms, (duration_minutes,), delay),
    ensures
        final(timer).running,
        final(timer).start_ms == now_ms,
        final(timer).duration_minutes == duration_minutes,
        r.delay_ms == delay,
        duration_minutes == 1 ==> locale::translation_answer(
            "Sleep timer set for 1 minute."@,
            r.announcement@,
        ),
        duration_minutes != 1 ==> exists|template: Seq<char>| #[trigger]
            locale::translation_answer("Sleep timer set for %d minutes."@, template)
                && r.announcement@ == text::replaced(
                template,
                "%d"@,
                text::signed_decimal(duration_minutes as int),
            ),
{
}

/// Choosing the timer in the menu cancels one that runs, which is announced, and asks for a duration
/// otherwise. A tick ends the timer exactly if it runs and has no time left. A timer that does not run has
/// forgotten its times.
pub proof fn law_timer_is_stopped(
    chosen: &mut SleepTimer,
    choice: SleepChoice,
    ticked: &mut SleepTimer,
    pending: bool,
    fired: bool,
    created: SleepTimer,
)
    requires
        call_ensures(SleepTimer::choose_entry, (chosen,), choice),
        call_ensures(SleepTimer::tick, (ticked, pending), fired),
        call_ensures(<SleepTimer as Default>::default, (), created),
    ensures
        old(chosen).running ==> {
            &&& choice matches SleepChoice::Cancelled { announcement }
            &&& locale::translation_answer("Sleep timer cancelled."@, announcement@)
            &&& !final(chosen).running && final(chosen).start_ms == 0 && final(
                chosen).duration_minutes == 0
        },
        !old(chosen).running ==> choice is Ask && *final(chosen) == *old(chosen),
        fired <==> old(ticked).running && !pending,
        fired ==> !final(ticked).running && final(ticked).start_ms == 0 && final(
            ticked).duration_minutes == 0,
        !fired ==> *final(ticked) == *old(ticked),
        !created.running && created.start_ms == 0 && created.duration_minutes == 0,
{
}

} // verus!
