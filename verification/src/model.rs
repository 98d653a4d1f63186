//! The records of the schedule service: terminals, sailings and schedules.

use vstd::prelude::*;
use crate::error::{WsfError, WsfErrorView};
use crate::text::{has_prefix_folded, starts_with_folded};
use crate::timestamp::{decoded, Timestamp};

verus! {

/// A ferry dock.
#[allow(non_snake_case)]
#[derive(Debug, PartialEq, Eq)]
pub struct Terminal {
    pub TerminalID: i32,
    pub Description: String,
}

/// A terminal as plain values.
pub ghost struct TerminalView {
    pub id: int,
    pub name: Seq<char>,
}

impl View for Terminal {
    type V = TerminalView;

    open spec fn view(&self) -> TerminalView {
        TerminalView { id: self.TerminalID as int, name: self.Description@ }
    }
}

impl DeepView for Terminal {
    type V = TerminalView;

    open spec fn deep_view(&self) -> TerminalView {
        self@
    }
}

impl Clone for Terminal {
    fn clone(&self) -> (r: Self)
        ensures
            r@ == self@,
    {
        Terminal { TerminalID: self.TerminalID, Description: self.Description.clone() }
    }
}

/// One departure: when it leaves, when it arrives if that is known, and the vessel.
#[allow(non_snake_case)]
#[derive(Debug, PartialEq, Eq)]
pub struct SailingTime {
    pub DepartingTime: String,
    pub ArrivingTime: Option<String>,
    pub VesselName: String,
}

/// A departure as plain values.
pub ghost struct SailingTimeView {
    pub departing: Seq<char>,
    pub arriving: Option<Seq<char>>,
    pub vessel: Seq<char>,
}

impl View for SailingTime {
    type V = SailingTimeView;

    open spec fn view(&self) -> SailingTimeView {
        SailingTimeView {
            departing: self.DepartingTime@,
            arriving: match self.ArrivingTime {
                Some(t) => Some(t@),
                None => None,
            },
            vessel: self.VesselName@,
        }
    }
}

impl DeepView for SailingTime {
    type V = SailingTimeView;

    open spec fn deep_view(&self) -> SailingTimeView {
        self@
    }
}

impl Clone for SailingTime {
    fn clone(&self) -> (r: Self)
        ensures
            r@ == self@,
    {
        SailingTime {
            DepartingTime: self.DepartingTime.clone(),
            ArrivingTime: match &self.ArrivingTime {
                Some(t) => Some(t.clone()),
                None => None,
            },
            VesselName: self.VesselName.clone(),
        }
    }
}

impl SailingTime {
    /// When this sailing leaves.
    pub fn depart_time(&self) -> (r: Result<Timestamp, WsfError>)
        ensures
            match r {
                Ok(t) => decoded(self@.departing) == Some(t@),
                Err(e) => decoded(self@.departing) is None && e@
                    == WsfErrorView::MalformedTimestamp(self@.departing),
            },
    {
        match Timestamp::decode(self.DepartingTime.as_str()) {
            Some(t) => Ok(t),
            None => Err(WsfError::MalformedTimestamp(self.DepartingTime.clone())),
        }
    }
}

impl SailingTime {
    /// Decides whether this sailing is listed at the time `now`, given in
    /// whole Unix seconds: every sailing where `show_all` is set, else those
    /// that leave after `now`. A listed sailing comes with its departure.
    pub fn listing(&self, show_all: bool, now: i64) -> (r: Result<Option<Timestamp>, WsfError>)
        ensures
            match r {
                Ok(Some(t)) => decoded(self@.departing) == Some(t@) && (show_all || t@.epoch
                    > now),
                Ok(None) => !show_all && (decoded(self@.departing) matches Some(m) && m.epoch
                    <= now),
                Err(e) => decoded(self@.departing) is None && e@
                    == WsfErrorView::MalformedTimestamp(self@.departing),
            },
    {
        match self.depart_time() {
            Ok(t) => {
                if show_all || t.is_after(now) {
                    Ok(Some(t))
                } else {
                    Ok(None)
                }
            },
            Err(e) => Err(e),
        }
    }
}

/// The sailings between two terminals on one day.
#[allow(non_snake_case)]
#[derive(Debug, PartialEq, Eq)]
pub struct TerminalCombo {
    pub Times: Vec<SailingTime>,
    pub DepartingTerminalName: String,
    pub ArrivingTerminalName: String,
}

/// The sailings between two terminals as plain values.
pub ghost struct TerminalComboView {
    pub times: Seq<SailingTimeView>,
    pub departing: Seq<char>,
    pub arriving: Seq<char>,
}

impl View for TerminalCombo {
    type V = TerminalComboView;

    open spec fn view(&self) -> TerminalComboView {
        TerminalComboView {
            times: self.Times.deep_view(),
            departing: self.DepartingTerminalName@,
            arriving: self.ArrivingTerminalName@,
        }
    }
}

impl DeepView for TerminalCombo {
    type V = TerminalComboView;

    open spec fn deep_view(&self) -> TerminalComboView {
        self@
    }
}

impl Clone for TerminalCombo {
    fn clone(&self) -> (r: Self)
        ensures
            r@ == self@,
    {
        let mut times: Vec<SailingTime> = Vec::new();
        let mut i: usize = 0;
        while i < self.Times.len()
            invariant
                i <= self.Times.len(),
                times.len() == i,
                forall|j: int| 0 <= j < i ==> times[j]@ == self.Times[j]@,
            decreases self.Times.len() - i,
        {
            times.push(self.Times[i].clone());
            i = i + 1;
        }
        assert(times.deep_view() =~= self.Times.deep_view());
        TerminalCombo {
            Times: times,
            DepartingTerminalName: self.DepartingTerminalName.clone(),
            ArrivingTerminalName: self.ArrivingTerminalName.clone(),
        }
    }
}

/// The line that lists one sailing: the time, both terminals and the
/// vessel, with a tab between them.
pub open spec fn listed_line(time: Seq<char>, combo: TerminalComboView, vessel: Seq<char>) -> Seq<
    char,
> {
    time + seq!['\t'] + combo.departing + seq!['\t'] + combo.arriving + seq!['\t'] + vessel
}

impl TerminalCombo {
    /// The line that lists `sailing`, which leaves at `time` as the reader's clock shows it.
    pub fn line(&self, time: &str, sailing: &SailingTime) -> (r: String)
        ensures
            r@ == listed_line(time@, self@, sailing@.vessel),
    {
        proof {
            reveal_strlit("\t");
            assert("\t"@ =~= seq!['\t']);
        }
        let mut out: String = String::from_str(time);
        out.append("\t");
        out.append(self.DepartingTerminalName.as_str());
        out.append("\t");
        out.append(self.ArrivingTerminalName.as_str());
        out.append("\t");
        out.append(sailing.VesselName.as_str());
        out
    }
}

/// What the service answers when asked for a schedule.
#[allow(non_snake_case)]
#[derive(Debug, PartialEq, Eq)]
pub struct Schedule {
    pub TerminalCombos: Vec<TerminalCombo>,
}

/// A schedule as plain values.
pub ghost struct ScheduleView {
    pub combos: Seq<TerminalComboView>,
}

impl View for Schedule {
    type V = ScheduleView;

    open spec fn view(&self) -> ScheduleView {
        ScheduleView { combos: self.TerminalCombos.deep_view() }
    }
}

impl Schedule {
    /// The combo that is used of a schedule: its first, whatever follows it.
    pub fn first_combo(&self) -> (r: Option<TerminalCombo>)
        ensures
            r is Some <==> self@.combos.len() > 0,
            r matches Some(c) ==> c@ == self@.combos[0],
    {
        if self.TerminalCombos.len() > 0 {
            Some(self.TerminalCombos[0].clone())
        } else {
            None
        }
    }
}

/// Whether the terminal at index `i` is the first whose name starts with
/// `term`, ASCII case ignored.
pub open spec fn is_first_match(terminals: Seq<TerminalView>, term: Seq<char>, i: int) -> bool {
    &&& 0 <= i < terminals.len()
    &&& starts_with_folded(terminals[i].name, term)
    &&& forall|j: int| 0 <= j < i ==> !starts_with_folded(#[trigger] terminals[j].name, term)
}

/// The first terminal, in the order of the list, whose name starts with
/// `term`, ASCII case ignored; none where no name does.
pub open spec fn first_match(terminals: Seq<TerminalView>, term: Seq<char>) -> Option<
    TerminalView,
> {
    if exists|i: int| is_first_match(terminals, term, i) {
        Some(terminals[choose|i: int| is_first_match(terminals, term, i)])
    } else {
        None
    }
}

/// Whether `r` is the answer to a search for `term` among `terminals`: the
/// first match where there is one, else the failure that names `term`.
pub open spec fn answers_search(
    r: Result<Terminal, WsfError>,
    terminals: Seq<TerminalView>,
    term: Seq<char>,
) -> bool {
    match r {
        Ok(t) => first_match(terminals, term) == Some(t@),
        Err(e) => first_match(terminals, term) is None && e@ == WsfErrorView::TerminalNotFound(
            term,
        ),
    }
}

/// A copy of a list of terminals.
pub fn copy_terminals(terminals: &Vec<Terminal>) -> (r: Vec<Terminal>)
    ensures
        r.deep_view() == terminals.deep_view(),
{
    let mut out: Vec<Terminal> = Vec::new();
    let mut i: usize = 0;
    while i < terminals.len()
        invariant
            i <= terminals.len(),
            out.len() == i,
            forall|j: int| 0 <= j < i ==> out[j]@ == terminals[j]@,
        decreases terminals.len() - i,
    {
        out.push(terminals[i].clone());
        i = i + 1;
    }
    assert(out.deep_view() =~= terminals.deep_view());
    out
}

/// Finds the first terminal whose name starts with `term`, ASCII case ignored.
pub fn find_by_prefix(terminals: &Vec<Terminal>, term: &str) -> (r: Result<Terminal, WsfError>)
    ensures
        answers_search(r, terminals.deep_view(), term@),
{
    let ghost views = terminals.deep_view();
    let mut i: usize = 0;
    while i < terminals.len()
        invariant
            i <= terminals.len(),
            views == terminals.deep_view(),
            forall|j: int| 0 <= j < i ==> !starts_with_folded(#[trigger] views[j].name, term@),
        decreases terminals.len() - i,
    {
        if has_prefix_folded(terminals[i].Description.as_str(), term) {
            proof {
                assert(views[i as int] == terminals[i as int]@);
                assert(is_first_match(views, term@, i as int));
                let k = choose|k: int| is_first_match(views, term@, k);
                assert(starts_with_folded(views[k].name, term@));
                assert(k == i);
            }
            return Ok(terminals[i].clone());
        }
        assert(views[i as int] == terminals[i as int]@);
        i = i + 1;
    }
    proof {
        assert forall|k: int| !is_first_match(views, term@, k) by {
            if 0 <= k < views.len() {
                assert(!starts_with_folded(views[k].name, term@));
            }
        }
    }
    Err(WsfError::TerminalNotFound(term.to_owned()))
}

/// A name found by its prefix is the first in the list that starts with it;
/// none is found exactly where no name in the list starts with it.
pub proof fn lemma_first_match(terminals: Seq<TerminalView>, term: Seq<char>)
    ensures
        first_match(terminals, term) is Some <==> exists|i: int|
            0 <= i < terminals.len() && starts_with_folded(#[trigger] terminals[i].name, term),
        first_match(terminals, term) matches Some(t) ==> exists|i: int|
            is_first_match(terminals, term, i) && terminals[i] == t,
{
    if exists|i: int|
        0 <= i < terminals.len() && starts_with_folded(#[trigger] terminals[i].name, term) {
        let i = choose|i: int|
            0 <= i < terminals.len() && starts_with_folded(#[trigger] terminals[i].name, term);
        lemma_least_match(terminals, term, i);
    }
    if first_match(terminals, term) is Some {
        let k = choose|k: int| is_first_match(terminals, term, k);
        assert(starts_with_folded(terminals[k].name, term));
    }
}

/// Below any index whose name matches there is a first such index.
proof fn lemma_least_match(terminals: Seq<TerminalView>, term: Seq<char>, i: int)
    requires
        0 <= i < terminals.len(),
        starts_with_folded(terminals[i].name, term),
    ensures
        exists|k: int| is_first_match(terminals, term, k),
    decreases i,
{
    if exists|j: int| 0 <= j < i && starts_with_folded(#[trigger] terminals[j].name, term) {
        let j = choose|j: int| 0 <= j < i && starts_with_folded(#[trigger] terminals[j].name, term);
        lemma_least_match(terminals, term, j);
    } else {
        assert(is_first_match(terminals, term, i));
    }
}

} // verus!
