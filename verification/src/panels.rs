//! The panels over the scene: saving, loading and the library of blueprints.
use vstd::prelude::*;

verus! {

/// Which panels are open, and whether a snapshot is to be taken for saving.
#[derive(Clone, Copy, Debug, PartialEq, Eq)]
pub struct Panels {
    pub save: bool,
    pub load: bool,
    pub library: bool,
    pub snapshot_due: bool,
}

impl Panels {
    /// All panels closed.
    pub fn new() -> (r: Self)
        ensures
            r == (Panels { save: false, load: false, library: false, snapshot_due: false }),
    {
        Panels { save: false, load: false, library: false, snapshot_due: false }
    }

    /// Saving is asked for: a snapshot is due, and the other panels close.
    pub fn ask_save(&mut self)
        ensures
            *final(self) == (Panels {
                load: false,
                library: false,
                snapshot_due: true,
                save: old(self).save,
            }),
    {
        self.snapshot_due = true;
        self.load = false;
        self.library = false;
    }

    /// Whether a snapshot is due; asking marks it as taken.
    pub fn take_snapshot(&mut self) -> (r: bool)
        ensures
            r == old(self).snapshot_due,
            *final(self) == (Panels { snapshot_due: false, ..*old(self) }),
    {
        let due: bool = self.snapshot_due;
        self.snapshot_due = false;
        due
    }

    /// The snapshot is there: the panel for saving opens.
    pub fn open_save(&mut self)
        ensures
            *final(self) == (Panels { save: true, ..*old(self) }),
    {
        self.save = true;
    }

    /// The panel for loading opens in place of the one for saving.
    pub fn open_load(&mut self)
        ensures
            *final(self) == (Panels { load: true, save: false, ..*old(self) }),
    {
        self.load = true;
        self.save = false;
    }

    /// The library opens in place of the others.
    pub fn open_library(&mut self)
        ensures
            *final(self) == (Panels { library: true, save: false, load: false, ..*old(self) }),
    {
        self.library = true;
        self.save = false;
        self.load = false;
    }

    /// The panel for saving closes.
    pub fn close_save(&mut self)
        ensures
            *final(self) == (Panels { save: false, ..*old(self) }),
    {
        self.save = false;
    }

    /// The panel for loading closes.
    pub fn close_load(&mut self)
        ensures
            *final(self) == (Panels { load: false, ..*old(self) }),
    {
        self.load = false;
    }

    /// The library closes.
    pub fn close_library(&mut self)
        ensures
            *final(self) == (Panels { library: false, ..*old(self) }),
    {
        self.library = false;
    }
}

/// Nothing is open at first, and no snapshot is due.
pub proof fn law_panels_start_closed(r: Panels)
    requires
        call_ensures(Panels::new, (), r),
    ensures
        !r.save && !r.load && !r.library && !r.snapshot_due,
{
}

/// Saving takes a snapshot first: asking for it closes the other panels, the snapshot is taken once,
/// and the panel opens when it is there.
pub proof fn law_saving_takes_a_snapshot_first(
    a: &mut Panels,
    b: &mut Panels,
    c: &mut Panels,
    due: bool,
    done: (),
)
    requires
        call_ensures(Panels::ask_save, (a,), done),
        call_ensures(Panels::take_snapshot, (b,), due),
        call_ensures(Panels::open_save, (c,), done),
    ensures
        final(a).snapshot_due && !final(a).load && !final(a).library && final(a).save == old(a).save,
        due == old(b).snapshot_due,
        !final(b).snapshot_due && final(b).save == old(b).save && final(b).load == old(b).load
            && final(b).library == old(b).library,
        final(c).save && final(c).load == old(c).load && final(c).library == old(c).library
            && final(c).snapshot_due == old(c).snapshot_due,
{
}

/// The panel for loading takes the place of the one for saving, and the library that of both.
pub proof fn law_panels_take_turns(a: &mut Panels, b: &mut Panels, done: ())
    requires
        call_ensures(Panels::open_load, (a,), done),
        call_ensures(Panels::open_library, (b,), done),
    ensures
        final(a).load && !final(a).save && final(a).library == old(a).library
            && final(a).snapshot_due == old(a).snapshot_due,
        final(b).library && !final(b).save && !final(b).load
            && final(b).snapshot_due == old(b).snapshot_due,
{
}

/// Closing a panel closes that one alone.
pub proof fn law_panels_close_one_by_one(a: &mut Panels, b: &mut Panels, c: &mut Panels, done: ())
    requires
        call_ensures(Panels::close_save, (a,), done),
        call_ensures(Panels::close_load, (b,), done),
        call_ensures(Panels::close_library, (c,), done),
    ensures
        !final(a).save && final(a).load == old(a).load && final(a).library == old(a).library
            && final(a).snapshot_due == old(a).snapshot_due,
        !final(b).load && final(b).save == old(b).save && final(b).library == old(b).library
            && final(b).snapshot_due == old(b).snapshot_due,
        !final(c).library && final(c).save == old(c).save && final(c).load == old(c).load
            && final(c).snapshot_due == old(c).snapshot_due,
{
}

} // verus!
