//! CSV rendering of item and warehouse lists, specified exactly at the
//! character level.
//!
//! The item export carries the columns of the header line and no others; in
//! particular the `warehouse` reference is not a column of this export.

use vstd::prelude::*;

use crate::decimal::{dec_str, i32_string};
use crate::models::{InventoryItem, Warehouse, WarehouseView};
use crate::store::whs_view;

verus! {

/// The header line of the item export.
pub open spec fn item_csv_header() -> Seq<char> {
    "id,weight,value,transport,width,height,depth\n"@
}

/// One row of the item export.
pub open spec fn item_csv_line(it: InventoryItem) -> Seq<char> {
    dec_str(it.id as int) + ","@ + dec_str(it.weight as int) + ","@ + dec_str(it.value as int)
        + ","@ + it.transport.name_spec() + ","@ + dec_str(it.dimensions.width as int) + ","@
        + dec_str(it.dimensions.height as int) + ","@ + dec_str(it.dimensions.depth as int)
        + "\n"@
}

/// The item export: the header line, then one row per item, in order.
pub open spec fn item_csv(items: Seq<InventoryItem>) -> Seq<char>
    decreases items.len(),
{
    if items.len() == 0 {
        item_csv_header()
    } else {
        item_csv(items.drop_last()) + item_csv_line(items.last())
    }
}

/// The header line of the warehouse export.
pub open spec fn warehouse_csv_header() -> Seq<char> {
    "id,items\n"@
}

/// A comma-joined id list: the first id bare, each further id preceded by
/// a comma and a space.
pub open spec fn id_list_field(ids: Seq<i32>) -> Seq<char>
    decreases ids.len(),
{
    if ids.len() == 0 {
        Seq::empty()
    } else if ids.len() == 1 {
        dec_str(ids[0] as int)
    } else {
        id_list_field(ids.drop_last()) + ", "@ + dec_str(ids.last() as int)
    }
}

/// One row of the warehouse export: the id, then the quoted id list.
pub open spec fn warehouse_csv_line(w: WarehouseView) -> Seq<char> {
    dec_str(w.id as int) + ",\""@ + id_list_field(w.items) + "\"\n"@
}

/// The warehouse export: the header line, then one row per warehouse, in
/// order.
pub open spec fn warehouse_csv(whs: Seq<WarehouseView>) -> Seq<char>
    decreases whs.len(),
{
    if whs.len() == 0 {
        warehouse_csv_header()
    } else {
        warehouse_csv(whs.drop_last()) + warehouse_csv_line(whs.last())
    }
}

/// Appends one row of the item export.
fn push_item_line(s: &mut String, it: InventoryItem)
    ensures
        final(s)@ == old(s)@ + item_csv_line(it),
{
    s.append(i32_string(it.id).as_str());
    s.append(",");
    s.append(i32_string(it.weight as i32).as_str());
    s.append(",");
    s.append(i32_string(it.value as i32).as_str());
    s.append(",");
    s.append(it.transport.name());
    s.append(",");
    s.append(i32_string(it.dimensions.width as i32).as_str());
    s.append(",");
    s.append(i32_string(it.dimensions.height as i32).as_str());
    s.append(",");
    s.append(i32_string(it.dimensions.depth as i32).as_str());
    s.append("\n");
    proof {
        assert(s@ =~= old(s)@ + item_csv_line(it));
    }
}

/// Renders the item export. Rendering cannot fail; the error side of the
/// result only matches the shape that response serializers share.
pub fn format_item_csv(items: &Vec<InventoryItem>) -> (r: Result<String, String>)
    ensures
        r matches Ok(csv) && csv@ == item_csv(items@),
{
    let mut s = String::from_str("id,weight,value,transport,width,height,depth\n");
    let mut i: usize = 0;
    while i < items.len()
        invariant
            i <= items@.len(),
            s@ == item_csv(items@.take(i as int)),
        decreases items@.len() - i,
    {
        push_item_line(&mut s, items[i]);
        proof {
            assert(items@.take(i as int + 1).drop_last() =~= items@.take(i as int));
            assert(items@.take(i as int + 1).last() == items@[i as int]);
        }
        i = i + 1;
    }
    proof {
        assert(items@.take(items@.len() as int) =~= items@);
    }
    Ok(s)
}

/// Renders the warehouse export. Rendering cannot fail; the error side of
/// the result only matches the shape that response serializers share.
pub fn format_warehouse_csv(whouses: &Vec<Warehouse>) -> (r: Result<String, String>)
    ensures
        r matches Ok(csv) && csv@ == warehouse_csv(whs_view(whouses@)),
{
    let mut s = String::from_str("id,items\n");
    let mut j: usize = 0;
    while j < whouses.len()
        invariant
            j <= whouses@.len(),
            s@ == warehouse_csv(whs_view(whouses@).take(j as int)),
        decreases whouses@.len() - j,
    {
        let w = &whouses[j];
        s.append(i32_string(w.id).as_str());
        s.append(",\"");
        let mut k: usize = 0;
        while k < w.items.len()
            invariant
                j < whouses@.len(),
                w@ == whs_view(whouses@)[j as int],
                k <= w.items@.len(),
                s@ == warehouse_csv(whs_view(whouses@).take(j as int)) + dec_str(w.id as int)
                    + ",\""@ + id_list_field(w.items@.take(k as int)),
            decreases w.items@.len() - k,
        {
            if k > 0 {
                s.append(", ");
            }
            s.append(i32_string(w.items[k]).as_str());
            proof {
                assert(w.items@.take(k as int + 1).drop_last() =~= w.items@.take(k as int));
                assert(w.items@.take(k as int + 1).last() == w.items@[k as int]);
                if k == 0 {
                    assert(id_list_field(w.items@.take(1)) == dec_str(w.items@[0] as int));
                }
                assert(s@ =~= warehouse_csv(whs_view(whouses@).take(j as int)) + dec_str(
                    w.id as int,
                ) + ",\""@ + id_list_field(w.items@.take(k as int + 1)));
            }
            k = k + 1;
        }
        s.append("\"\n");
        proof {
            assert(w.items@.take(w.items@.len() as int) =~= w.items@);
            assert(whs_view(whouses@).take(j as int + 1).drop_last() =~= whs_view(
                whouses@,
            ).take(j as int));
            assert(whs_view(whouses@).take(j as int + 1).last() == whs_view(whouses@)[j as int]);
            assert(s@ =~= warehouse_csv(whs_view(whouses@).take(j as int)) + warehouse_csv_line(
                whs_view(whouses@)[j as int],
            ));
        }
        j = j + 1;
    }
    proof {
        assert(whs_view(whouses@).take(whs_view(whouses@).len() as int) =~= whs_view(whouses@));
    }
    Ok(s)
}

} // verus!
