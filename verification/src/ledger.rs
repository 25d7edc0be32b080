//! The uptime ledger: a link's age in seconds keyed by the ordered pair of
//! node ids it was measured between; the last write for a key wins.

use vstd::prelude::*;

verus! {

/// The map a row list denotes, later rows overwriting earlier ones.
pub open spec fn table_of(rows: Seq<(usize, usize, usize)>) -> Map<(int, int), int>
    decreases rows.len(),
{
    if rows.len() == 0 {
        Map::empty()
    } else {
        table_of(rows.drop_last()).insert(
            (rows.last().0 as int, rows.last().1 as int),
            rows.last().2 as int,
        )
    }
}

pub struct UptimeLedger {
    pub rows: Vec<(usize, usize, usize)>,
}

impl UptimeLedger {
    /// The recorded uptimes, keyed by `(reporting_id, peer_id)`.
    pub open spec fn table(self) -> Map<(int, int), int> {
        table_of(self.rows@)
    }

    pub fn new() -> (r: Self)
        ensures
            r.table() == Map::<(int, int), int>::empty(),
    {
        UptimeLedger { rows: Vec::new() }
    }

    /// Records `secs` for the pair `(r, l)`, overwriting any prior value.
    pub fn record(&mut self, r: usize, l: usize, secs: usize)
        ensures
            final(self).table() == old(self).table().insert((r as int, l as int), secs as int),
    {
        self.rows.push((r, l, secs));
        proof {
            assert(self.rows@.drop_last() =~= old(self).rows@);
        }
    }

    /// The seconds recorded for `(r, l)`, if any.
    pub fn lookup(&self, r: usize, l: usize) -> (res: Option<usize>)
        ensures
            match res {
                Some(v) => self.table().contains_key((r as int, l as int)) && self.table()[(
                    r as int,
                    l as int,
                )] == v as int,
                None => !self.table().contains_key((r as int, l as int)),
            },
    {
        let n = self.rows.len();
        let mut acc: Option<usize> = None;
        let mut i: usize = 0;
        while i < n
            invariant
                n == self.rows@.len(),
                i <= n,
                match acc {
                    Some(v) => table_of(self.rows@.take(i as int)).contains_key((
                        r as int,
                        l as int,
                    )) && table_of(self.rows@.take(i as int))[(r as int, l as int)] == v as int,
                    None => !table_of(self.rows@.take(i as int)).contains_key((r as int, l as int)),
                },
            decreases n - i,
        {
            proof {
                assert(self.rows@.take(i + 1).drop_last() =~= self.rows@.take(i as int));
                assert(self.rows@.take(i + 1).last() == self.rows@[i as int]);
            }
            let row = self.rows[i];
            if row.0 == r && row.1 == l {
                acc = Some(row.2);
            }
            i = i + 1;
        }
        proof {
            assert(self.rows@.take(n as int) =~= self.rows@);
        }
        acc
    }
}

} // verus!
