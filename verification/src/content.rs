//! The table-of-contents units: one `Heading` per document heading, each
//! with the anchor id the allocator granted it.
use vstd::prelude::*;

verus! {

/// One heading of a rendered document, as the table of contents sees it.
#[derive(Debug, PartialEq, Eq)]
pub struct Heading {
    pub level: u32,
    pub id: String,
    pub permalink: String,
    pub title: String,
    pub children: Vec<Heading>,
}

impl Heading {
    /// A heading of the given level with everything else still empty.
    pub fn new(level: u32) -> (r: Heading)
        ensures
            r.level == level,
            r.id@ == Seq::<char>::empty(),
            r.permalink@ == Seq::<char>::empty(),
            r.title@ == Seq::<char>::empty(),
            r.children@.len() == 0,
    {
        Heading {
            level,
            id: String::new(),
            permalink: String::new(),
            title: String::new(),
            children: Vec::new(),
        }
    }
}

/// Whether the table's last root claims a heading: only a strictly deeper
/// heading is claimed — and a claimed heading is dropped, not recorded
/// among the root's children, which stay empty.
fn insert_into_parent(possible_parent: Option<&Heading>, heading: &Heading) -> (r: bool)
    ensures
        r == match possible_parent {
            Some(parent) => heading.level > parent.level,
            None => false,
        },
{
    match possible_parent {
        Some(parent) => {
            if heading.level <= parent.level {
                return false;
            }
            true
        },
        None => false,
    }
}

/// The table of contents a list of headings folds into: a heading strictly
/// deeper than the previous root is dropped (the roots keep no children),
/// every other heading becomes a root of its own.
pub open spec fn toc_of(headings: Seq<Heading>, toc: Seq<Heading>) -> Seq<Heading>
    decreases headings.len(),
{
    if headings.len() == 0 {
        toc
    } else {
        let h = headings[0];
        let next = if toc.len() == 0 || h.level <= toc.last().level {
            toc.push(h)
        } else {
            toc
        };
        toc_of(headings.drop_first(), next)
    }
}

/// Makes a table of contents from the document's headings in order.
pub fn make_table_of_content(heading: Vec<Heading>) -> (r: Vec<Heading>)
    ensures
        r@ == toc_of(heading@, Seq::empty()),
{
    let ghost hs = heading@;
    let mut toc: Vec<Heading> = Vec::new();
    let mut rest = heading;
    let ghost mut i: int = 0;
    proof {
        assert(hs.skip(0) =~= hs);
    }
    while rest.len() > 0
        invariant
            0 <= i <= hs.len(),
            rest@ == hs.skip(i),
            toc_of(hs, Seq::empty()) == toc_of(rest@, toc@),
        decreases hs.len() - i,
    {
        let ghost prev_rem = rest@;
        let ghost toc0 = toc@;
        let h = rest.remove(0);
        proof {
            assert(hs.skip(i).drop_first() =~= hs.skip(i + 1));
            i = i + 1;
        }
        let absorb = if toc.len() == 0 {
            false
        } else {
            insert_into_parent(Some(&toc[toc.len() - 1]), &h)
        };
        if !absorb {
            proof {
                assert(toc0.len() == 0 || h.level <= toc0.last().level);
            }
            toc.push(h);
        }
        proof {
            assert(prev_rem[0] == h);
            assert(toc_of(prev_rem, toc0) == toc_of(prev_rem.drop_first(), toc@));
        }
    }
    proof {
        assert(toc_of(rest@, toc@) == toc@);
    }
    toc
}

} // verus!
