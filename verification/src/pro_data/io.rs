use vstd::prelude::*;

use crate::id_map::IdMap;
use crate::pro_data::{roster_entry_ok, Pro, Team};
use crate::text::upper_of;

verus! {

/// What the tabular reader yields for given bytes: for each data row after
/// the header row, either its fields, or nothing for a row the reader
/// rejects.
pub uninterp spec fn csv_records_of(data: Seq<u8>) -> Seq<Option<Seq<Seq<char>>>>;

/// Relies on csv::Reader in header mode: splits `data` into records after
/// the header row, a pure function of the bytes alone. A record the reader
/// rejects (for instance one whose field count differs from the header's) is
/// reported as `None` and the stream continues.
#[verifier::external_body]
fn read_csv_records(data: &[u8]) -> (r: Vec<Option<Vec<String>>>)
    ensures
        r.deep_view() == csv_records_of(data@),
{
    let mut reader = csv::ReaderBuilder::new().has_headers(true).from_reader(data);
    reader
        .records()
        .map(|record| record.ok().map(|fields| fields.iter().map(String::from).collect()))
        .collect()
}

/// A roster row: display name, team short code, team full name, account
/// display name, account identifier.
pub open spec fn roster_row_arity() -> int {
    5
}

/// The pro record a well-formed roster row describes.
pub open spec fn row_pro_ok(row: Seq<Seq<char>>, p: Pro) -> bool {
    &&& p.player_name@ == row[0]
    &&& p.team.short_name@ == upper_of(row[1])
    &&& p.team.full_name@ == row[2]
    &&& p.summoner_name@ == row[3]
    &&& if row[4].len() == 0 {
        p.summoner_id is None
    } else {
        p.summoner_id matches Some(s) && s@ == row[4]
    }
}

/// The well-formed roster rows keyed by their account identifier; a later
/// row with the same identifier wins. Malformed rows are skipped.
pub open spec fn roster_rows(records: Seq<Option<Seq<Seq<char>>>>) -> Map<
    Seq<char>,
    Seq<Seq<char>>,
>
    decreases records.len(),
{
    if records.len() == 0 {
        Map::empty()
    } else {
        let rest = roster_rows(records.drop_last());
        match records.last() {
            Some(row) => if row.len() == roster_row_arity() {
                rest.insert(row[4], row)
            } else {
                rest
            },
            None => rest,
        }
    }
}

/// Load the roster from the bytes of its tabular source.
///
/// Each well-formed row becomes a pro keyed by its account identifier;
/// malformed rows are skipped and loading continues.
pub fn load_pros(data: &[u8]) -> (r: IdMap<Pro>)
    ensures
        r.wf(),
        r@.dom() == roster_rows(csv_records_of(data@)).dom(),
        forall|id: Seq<char>| #[trigger]
            r@.dom().contains(id) ==> row_pro_ok(roster_rows(csv_records_of(data@))[id], r@[id]),
        forall|id: Seq<char>| #[trigger] r@.dom().contains(id) ==> roster_entry_ok(id, r@[id]),
{
    let records = read_csv_records(data);
    let ghost all_rows = records.deep_view();
    let mut pros: IdMap<Pro> = IdMap::new();
    let n = records.len();
    let mut i: usize = 0;
    while i < n
        invariant
            i <= n,
            n == records@.len(),
            all_rows == records.deep_view(),
            pros.wf(),
            pros@.dom() == roster_rows(all_rows.subrange(0, i as int)).dom(),
            forall|id: Seq<char>| #[trigger]
                pros@.dom().contains(id) ==> row_pro_ok(
                    roster_rows(all_rows.subrange(0, i as int))[id],
                    pros@[id],
                ),
            forall|id: Seq<char>| #[trigger]
                pros@.dom().contains(id) ==> roster_entry_ok(id, pros@[id]),
        decreases n - i,
    {
        proof {
            let prefix = all_rows.subrange(0, i as int);
            let extended = all_rows.subrange(0, i + 1);
            assert(extended.drop_last() =~= prefix);
            assert(extended.last() == all_rows[i as int]);
        }
        match &records[i] {
            Some(fields) => {
                if fields.len() == 5 {
                    let team = Team::new(fields[1].clone(), fields[2].clone());
                    let pro = Pro::new(
                        fields[0].clone(),
                        team,
                        fields[3].clone(),
                        fields[4].clone(),
                    );
                    pros.insert(fields[4].clone(), pro);
                    proof {
                        let row = all_rows[i as int]->Some_0;
                        assert(row =~= fields.deep_view());
                        assert(row[4] == fields@[4]@);
                        assert(pros@.dom() =~= roster_rows(
                            all_rows.subrange(0, i + 1),
                        ).dom());
                    }
                }
            },
            None => (),
        }
        i = i + 1;
    }
    proof {
        assert(all_rows.subrange(0, n as int) =~= all_rows);
    }
    pros
}

} // verus!
