//! The installed-programs inventory: uninstall-registry rows become program
//! records (rows without a display name are skipped), with a
//! case-insensitive name filter and pagination on top.

use vstd::prelude::*;

use crate::cache::CacheEntry;
use crate::models::{GetProgramArgs, Program, ProgramV, programs_view};
use crate::paging::{page_end, page_start, paginate, Paged};
use crate::text::{matches_name, name_matches};

verus! {

/// One uninstall-registry row: its display name, install location and
/// display icon, each absent when the value is missing or malformed.
pub struct ProgramRow {
    pub display_name: Option<String>,
    pub install_location: Option<String>,
    pub display_icon: Option<String>,
}

/// The program a row describes: nothing without a display name; the path is
/// the install location, else the display icon, else empty.
pub open spec fn row_program(row: ProgramRow) -> Option<ProgramV> {
    match row.display_name {
        Some(name) => Some(
            ProgramV {
                name: name@,
                path: match row.install_location {
                    Some(l) => l@,
                    None => match row.display_icon {
                        Some(ic) => ic@,
                        None => Seq::empty(),
                    },
                },
                icon_path: None,
            },
        ),
        None => None,
    }
}

/// The records a row sequence yields, in row order, skipping rows without a
/// display name.
pub open spec fn rows_programs(rows: Seq<ProgramRow>) -> Seq<ProgramV>
    decreases rows.len(),
{
    if rows.len() == 0 {
        Seq::empty()
    } else {
        rows_programs(rows.drop_last()) + match row_program(rows.last()) {
            Some(p) => seq![p],
            None => Seq::empty(),
        }
    }
}

/// Turn one row into a program record, when it names one.
pub fn program_from_row(row: ProgramRow) -> (r: Option<Program>)
    ensures
        match r {
            Some(p) => row_program(row) == Some(p@),
            None => row_program(row) is None,
        },
{
    match row.display_name {
        Some(name) => {
            let path: String = match row.install_location {
                Some(l) => l,
                None => match row.display_icon {
                    Some(ic) => ic,
                    None => String::new(),
                },
            };
            Some(Program { name, path, icon_path: None })
        },
        None => None,
    }
}

/// Turn the enumerated rows into program records, skipping rows without a
/// display name; a malformed row never aborts the batch.
#[verifier::loop_isolation(false)]
pub fn programs_from_rows(rows: Vec<ProgramRow>) -> (r: Vec<Program>)
    ensures
        programs_view(r@) == rows_programs(rows@),
{
    let ghost rows_view = rows@;
    let mut rows = rows;
    let n: usize = rows.len();
    proof {
        assert(rows_view.len() == n as int);
    }
    let mut out: Vec<Program> = Vec::new();
    let mut taken: usize = 0;
    while rows.len() > 0
        invariant
            rows_view.len() <= usize::MAX,
            taken + rows@.len() == rows_view.len(),
            rows@ == rows_view.skip(taken as int),
            programs_view(out@) == rows_programs(rows_view.take(taken as int)),
        decreases rows@.len(),
    {
        let row = rows.remove(0);
        proof {
            assert(row == rows_view[taken as int]);
            assert(rows@ =~= rows_view.skip(taken as int + 1));
            assert(rows_view.take(taken as int + 1).drop_last() =~= rows_view.take(taken as int));
            assert(rows_view.take(taken as int + 1).last() == rows_view[taken as int]);
        }
        match program_from_row(row) {
            Some(p) => {
                let ghost before = out@;
                out.push(p);
                proof {
                    assert(programs_view(out@) =~= programs_view(before).push(out@.last()@));
                    assert(programs_view(out@) =~= rows_programs(
                        rows_view.take(taken as int + 1),
                    ));
                }
            },
            None => {
                proof {
                    assert(programs_view(out@) =~= rows_programs(
                        rows_view.take(taken as int + 1),
                    ));
                }
            },
        }
        taken += 1;
    }
    proof {
        assert(rows_view.take(taken as int) =~= rows_view);
    }
    out
}

/// The name filter on a program view, for a given filter text.
pub open spec fn program_name_pred(f: Seq<char>) -> spec_fn(ProgramV) -> bool {
    |p: ProgramV| name_matches(f, p.name)
}

/// Keep the programs whose name matches the filter, case-insensitively,
/// cloning each kept record.
#[verifier::loop_isolation(false)]
pub fn filter_programs_by_name(v: &Vec<Program>, filter: &str) -> (r: Vec<Program>)
    ensures
        programs_view(r@) == programs_view(v@).filter(program_name_pred(filter@)),
{
    let ghost pred = program_name_pred(filter@);
    let mut out: Vec<Program> = Vec::new();
    let mut i: usize = 0;
    while i < v.len()
        invariant
            0 <= i <= v@.len(),
            programs_view(out@) == programs_view(v@.take(i as int)).filter(pred),
        decreases v@.len() - i,
    {
        proof {
            reveal(Seq::filter);
            let pt = programs_view(v@.take(i as int + 1));
            assert(v@.take(i as int + 1) =~= v@.take(i as int).push(v@[i as int]));
            assert(pt =~= programs_view(v@.take(i as int)).push(v@[i as int]@));
            assert(pt.drop_last() =~= programs_view(v@.take(i as int)));
            assert(pt.last() == v@[i as int]@);
            assert(pred(v@[i as int]@) == name_matches(filter@, v@[i as int].name@));
            assert(pt.filter(pred) == if pred(pt.last()) {
                pt.drop_last().filter(pred).push(pt.last())
            } else {
                pt.drop_last().filter(pred)
            });
        }
        if matches_name(filter, v[i].name.as_str()) {
            let ghost before = out@;
            out.push(v[i].clone());
            proof {
                assert(programs_view(out@) =~= programs_view(before).push(v@[i as int]@));
            }
        }
        i += 1;
    }
    proof {
        assert(v@.take(v@.len() as int) =~= v@);
    }
    out
}

/// Clone a whole program list, keeping its views.
#[verifier::loop_isolation(false)]
pub fn clone_programs(v: &Vec<Program>) -> (r: Vec<Program>)
    ensures
        programs_view(r@) == programs_view(v@),
{
    let mut out: Vec<Program> = Vec::new();
    let mut i: usize = 0;
    while i < v.len()
        invariant
            0 <= i <= v@.len(),
            programs_view(out@) == programs_view(v@.take(i as int)),
        decreases v@.len() - i,
    {
        let ghost before = out@;
        out.push(v[i].clone());
        proof {
            assert(v@.take(i as int + 1) =~= v@.take(i as int).push(v@[i as int]));
            assert(programs_view(out@) =~= programs_view(before).push(v@[i as int]@));
            assert(programs_view(v@.take(i as int + 1)) =~= programs_view(v@.take(i as int)).push(
                v@[i as int]@,
            ));
        }
        i += 1;
    }
    proof {
        assert(v@.take(v@.len() as int) =~= v@);
    }
    out
}

/// The installed-programs collector: one freshness-gated cache of the
/// assembled records; an empty cache counts as stale, so the first query
/// always enumerates.
pub struct InstalledProgramsService {
    pub query_interval_ms: u64,
    pub cache: CacheEntry<Vec<Program>>,
}

impl InstalledProgramsService {
    /// A collector whose empty cache is immediately stale.
    pub fn new(now_ms: u64) -> (r: Self)
        ensures
            r.query_interval_ms == 60000,
            r.cache.value@ == Seq::<Program>::empty(),
    {
        let r = InstalledProgramsService {
            query_interval_ms: 60000,
            cache: CacheEntry::new(Vec::new(), now_ms),
        };
        proof {
            assert(r.cache.value@ =~= Seq::<Program>::empty());
        }
        r
    }

    /// The cache is due for a refresh: older than the interval, or empty.
    pub fn needs_refresh(&self, now_ms: u64) -> (r: bool)
        ensures
            r == (self.cache.spec_is_stale(now_ms, self.query_interval_ms)
                || self.cache.value@.len() == 0),
    {
        self.cache.is_stale(now_ms, self.query_interval_ms) || self.cache.value.len() == 0
    }

    /// Assemble fresh rows into records and replace the cache.
    pub fn refresh(&mut self, rows: Vec<ProgramRow>, now_ms: u64)
        ensures
            programs_view(final(self).cache.value@) == rows_programs(rows@),
            final(self).cache.refreshed_on_ms == now_ms,
            final(self).query_interval_ms == old(self).query_interval_ms,
    {
        let programs = programs_from_rows(rows);
        self.cache.store(programs, now_ms);
    }

    /// Read the cached records.
    pub fn get_all(&self) -> (r: &Vec<Program>)
        ensures
            *r == self.cache.value,
    {
        self.cache.value()
    }

    /// Number of cached records.
    pub fn get_count(&self) -> (r: u32)
        requires
            self.cache.value@.len() <= u32::MAX,
        ensures
            r == self.cache.value@.len(),
    {
        self.cache.value().len() as u32
    }

    /// The program query's full (unpaged) answer: the cached records,
    /// filtered by case-insensitive name when a filter is given.
    pub open spec fn programs_view_of(&self, filter: Option<Seq<char>>) -> Seq<ProgramV> {
        match filter {
            Some(f) => programs_view(self.cache.value@).filter(program_name_pred(f)),
            None => programs_view(self.cache.value@),
        }
    }

    /// Filter the cached records by case-insensitive name and slice the
    /// requested page out; the reported total is the filtered count.
    pub fn get_programs(&self, args: &GetProgramArgs) -> (r: Paged<Program>)
        requires
            self.cache.value@.len() <= u32::MAX,
        ensures
            ({
                let full = self.programs_view_of(
                    match args.name {
                        Some(n) => Some(n@),
                        None => None,
                    },
                );
                &&& programs_view(r.items@) == full.subrange(
                    page_start(full.len() as int, args.page as int, args.page_size as int),
                    page_end(full.len() as int, args.page as int, args.page_size as int),
                )
                &&& r.total == full.len()
                &&& r.page == args.page
                &&& r.page_size == args.page_size
            }),
    {
        let kept = match &args.name {
            Some(name) => filter_programs_by_name(self.cache.value(), name.as_str()),
            None => clone_programs(self.cache.value()),
        };
        proof {
            let full = self.programs_view_of(
                match args.name {
                    Some(ref n) => Some(n@),
                    None => None,
                },
            );
            assert(programs_view(kept@) == full);
            assert(full.len() <= programs_view(self.cache.value@).len()) by {
                broadcast use vstd::seq_lib::group_filter_ensures;
            }
        }
        let page = paginate(kept, args.page, args.page_size);
        proof {
            let full = self.programs_view_of(
                match args.name {
                    Some(ref n) => Some(n@),
                    None => None,
                },
            );
            let lo = page_start(full.len() as int, args.page as int, args.page_size as int);
            let hi = page_end(full.len() as int, args.page as int, args.page_size as int);
            assert(programs_view(page.items@) =~= full.subrange(lo, hi));
        }
        page
    }
}

} // verus!
