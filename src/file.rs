use vstd::prelude::*;
use vstd::string::StringExecFns;
use crate::api::{Api, ItemSyntax, api_error, item_parsed};
use crate::error::{Error, Span};

verus! {

broadcast use vstd::std_specs::vec::group_vec_axioms;

/// An item of a source file, as far as the search for bridge modules reads it.
#[derive(Debug)]
pub enum FileItem {
    /// A module marked as a bridge: its name and items.
    Bridge { ident: String, items: Vec<ItemSyntax> },
    /// Any other module: its items, or `None` for `mod x;`.
    Module(Option<Vec<FileItem>>),
    /// Any other item; `bridge` when it is marked as a bridge.
    Other { bridge: bool, span: Span },
}

/// The bridge modules of a source file, in reading order.
#[derive(Debug)]
pub struct File {
    pub apis: Vec<Api>,
}

/// The first reason, in reading order, why the items are refused.
pub open spec fn file_error(items: Seq<FileItem>) -> Option<(Span, Seq<char>)>
    decreases items,
{
    if items.len() == 0 {
        None
    } else {
        let first = match items[0] {
            FileItem::Bridge { items: its, .. } => api_error(its@, 0),
            FileItem::Module(Some(c)) => file_error(c@),
            FileItem::Module(None) => None,
            FileItem::Other { bridge, span } => if bridge {
                Some((span, "expected a module"@))
            } else {
                None
            },
        };
        match first {
            Some(e) => Some(e),
            None => file_error(items.drop_first()),
        }
    }
}

/// The bridge modules among the items, nested modules included, in reading
/// order.
pub open spec fn bridges(items: Seq<FileItem>) -> Seq<(String, Vec<ItemSyntax>)>
    decreases items,
{
    if items.len() == 0 {
        Seq::empty()
    } else {
        let first = match items[0] {
            FileItem::Bridge { ident, items: its } => seq![(ident, its)],
            FileItem::Module(Some(c)) => bridges(c@),
            _ => Seq::empty(),
        };
        first + bridges(items.drop_first())
    }
}

/// `api` is the checked form of the bridge module `b`.
pub open spec fn api_from(b: (String, Vec<ItemSyntax>), api: Api) -> bool {
    &&& api.ident == b.0
    &&& api.api_items.len() == b.1.len()
    &&& forall|j: int| 0 <= j < b.1.len() ==> item_parsed(b.1@[j], #[trigger] api.api_items@[j])
}

fn parse_items(items: Vec<FileItem>, apis: &mut Vec<Api>) -> (r: Result<(), Error>)
    ensures
        match r {
            Ok(()) => {
                &&& file_error(items@) is None
                &&& final(apis)@.len() == old(apis)@.len() + bridges(items@).len()
                &&& final(apis)@.subrange(0, old(apis)@.len() as int) == old(apis)@
                &&& forall|i: int|
                    0 <= i < bridges(items@).len() ==> api_from(
                        bridges(items@)[i],
                        #[trigger] final(apis)@[old(apis)@.len() + i],
                    )
            },
            Err(e) => file_error(items@) matches Some((span, m)) && e.span == span && e.message@
                == m,
        },
    decreases items,
{
    let ghost orig = items@;
    let ghost start = apis@;
    let ghost n = orig.len();
    let ghost mut done: Seq<(String, Vec<ItemSyntax>)> = Seq::empty();
    let total = items.len();
    let mut rest = items;
    let mut k: usize = 0;
    assert(orig.subrange(0, n as int) =~= orig);
    while rest.len() > 0
        invariant
            orig == items@,
            n == orig.len(),
            n == total,
            k + rest.len() == n,
            rest@ == orig.subrange(k as int, n as int),
            file_error(orig) == file_error(rest@),
            bridges(orig) == done + bridges(rest@),
            apis@.len() == start.len() + done.len(),
            apis@.subrange(0, start.len() as int) == start,
            forall|i: int| 0 <= i < done.len() ==> api_from(done[i], #[trigger] apis@[start.len() + i]),
        decreases rest.len(),
    {
        let ghost before = rest@;
        let x = rest.remove(0);
        assert(x == before[0]);
        assert(rest@ =~= before.drop_first());
        assert(x == orig[k as int]);
        match x {
            FileItem::Bridge { ident, items: its } => {
                match Api::parse(ident, its) {
                    Ok(api) => {
                        let ghost old_apis = apis@;
                        apis.push(api);
                        proof {
                            done = done + seq![(ident, its)];
                            assert(apis@.subrange(0, start.len() as int) =~= old_apis.subrange(0, start.len() as int));
                        }
                    },
                    Err(e) => {
                        return Err(e);
                    },
                }
            },
            FileItem::Module(Some(c)) => {
                proof {
                    assert(decreases_to!(items => items@));
                    assert(decreases_to!(items@ => items@[k as int]));
                }
                let ghost c0 = c@;
                let ghost mid = apis@;
                match parse_items(c, apis) {
                    Ok(()) => {
                        proof {
                            let added = bridges(c0);
                            assert(apis@.subrange(0, mid.len() as int) == mid);
                            assert forall|i: int| 0 <= i < done.len() + added.len() implies api_from(
                                (done + added)[i],
                                #[trigger] apis@[start.len() + i],
                            ) by {
                                if i >= done.len() {
                                    let j = i - done.len();
                                    assert(api_from(added[j], apis@[mid.len() + j]));
                                } else {
                                    assert(apis@[start.len() + i] == mid[start.len() + i]);
                                }
                            }
                            assert(apis@.subrange(0, start.len() as int) =~= mid.subrange(0, start.len() as int));
                            done = done + added;
                        }
                    },
                    Err(e) => {
                        return Err(e);
                    },
                }
            },
            FileItem::Module(None) => {},
            FileItem::Other { bridge, span } => {
                if bridge {
                    return Err(Error { span, message: String::from_str("expected a module") });
                }
            },
        }
        k = k + 1;
        assert(rest@ =~= orig.subrange(k as int, n as int));
    }
    assert(done + bridges(rest@) =~= done);
    Ok(())
}

impl File {
    /// Finds the bridge modules of a file, nested modules included, and checks
    /// each; an item marked as a bridge that is not a module is refused.
    pub fn parse(items: Vec<FileItem>) -> (r: Result<File, Error>)
        ensures
            match r {
                Ok(f) => file_error(items@) is None && f.apis.len() == bridges(items@).len()
                    && forall|i: int|
                    0 <= i < f.apis.len() ==> api_from(bridges(items@)[i], #[trigger] f.apis@[i]),
                Err(e) => file_error(items@) matches Some((span, m)) && e.span == span
                    && e.message@ == m,
            },
    {
        let mut apis: Vec<Api> = Vec::new();
        match parse_items(items, &mut apis) {
            Ok(()) => {
                assert forall|i: int| 0 <= i < apis.len() implies api_from(
                    bridges(items@)[i],
                    #[trigger] apis@[i],
                ) by {
                    assert(apis@[0 + i] == apis@[i]);
                }
                Ok(File { apis })
            },
            Err(e) => Err(e),
        }
    }
}

} // verus!
