//! The whole list of diagnostics of a document, put together from its
//! parts.

use crate::backend::{Backend, BackendView, DocumentsView};
use crate::chars::strings_view;
use crate::diagnostics::{
    append_duplicate_diagnostics_for_index, append_flag_sequence_diagnostics,
    append_metadata_for_index, append_undefined_reference_diagnostics, append_unused_for_index,
    diagnostics_view, duplicates_in_order, metadata_in_order, sequence_in_order, starts_in_order,
    undefined_in_order, unused_in_order, world_consistency, world_consistency_diagnostics,
    Diagnostic, DiagnosticView,
};
use crate::index::enumerates;
use crate::schedule::{player_starts_view, PlayerStart, PlayerStartView};
use crate::symbols::SymbolKind;
use vstd::prelude::*;

verus! {

/// The orders in which the maps of the engine were walked: for each kind
/// the identifiers of its index, and the URIs of the documents.
#[derive(Debug)]
pub struct WalkOrders {
    pub rooms: Vec<String>,
    pub items: Vec<String>,
    pub npcs: Vec<String>,
    pub flags: Vec<String>,
    pub sets: Vec<String>,
    pub documents: Vec<String>,
}

/// What a [`WalkOrders`] holds.
pub struct OrdersView {
    pub rooms: Seq<Seq<char>>,
    pub items: Seq<Seq<char>>,
    pub npcs: Seq<Seq<char>>,
    pub flags: Seq<Seq<char>>,
    pub sets: Seq<Seq<char>>,
    pub documents: Seq<Seq<char>>,
}

impl View for WalkOrders {
    type V = OrdersView;

    open spec fn view(&self) -> OrdersView {
        OrdersView {
            rooms: strings_view(self.rooms@),
            items: strings_view(self.items@),
            npcs: strings_view(self.npcs@),
            flags: strings_view(self.flags@),
            sets: strings_view(self.sets@),
            documents: strings_view(self.documents@),
        }
    }
}

/// Whether `uris` names each document of `documents` once.
pub open spec fn enumerates_documents(uris: Seq<Seq<char>>, documents: DocumentsView) -> bool {
    &&& uris.no_duplicates()
    &&& forall|uri: Seq<char>| uris.contains(uri) <==> documents.contains_key(uri)
}

impl OrdersView {
    /// Whether each order names each key of its map once.
    pub open spec fn enumerates(self, b: BackendView) -> bool {
        &&& enumerates(self.rooms, b.symbols.rooms)
        &&& enumerates(self.items, b.symbols.items)
        &&& enumerates(self.npcs, b.symbols.npcs)
        &&& enumerates(self.flags, b.symbols.flags)
        &&& enumerates(self.sets, b.symbols.sets)
        &&& enumerates_documents(self.documents, b.documents)
    }
}

/// The diagnostics of the document `uri` where the maps are walked in the
/// orders `o`: the references to what is not defined, the identifiers
/// defined more than once, the definitions that nothing refers to, each of
/// these for rooms, items, characters, flags and sets in turn; the missing
/// metadata of rooms, items and characters; the start of the player; the
/// steps of flags.
pub open spec fn diagnostics_for(b: BackendView, uri: Seq<char>, o: OrdersView) -> Seq<
    DiagnosticView,
> {
    undefined_in_order(b.symbols, SymbolKind::Room, o.rooms, uri) + undefined_in_order(
        b.symbols,
        SymbolKind::Item,
        o.items,
        uri,
    ) + undefined_in_order(b.symbols, SymbolKind::Npc, o.npcs, uri) + undefined_in_order(
        b.symbols,
        SymbolKind::Flag,
        o.flags,
        uri,
    ) + undefined_in_order(b.symbols, SymbolKind::RoomSet, o.sets, uri) + duplicates_in_order(
        b.symbols.rooms,
        SymbolKind::Room,
        o.rooms,
        uri,
    ) + duplicates_in_order(b.symbols.items, SymbolKind::Item, o.items, uri) + duplicates_in_order(
        b.symbols.npcs,
        SymbolKind::Npc,
        o.npcs,
        uri,
    ) + duplicates_in_order(b.symbols.flags, SymbolKind::Flag, o.flags, uri) + duplicates_in_order(
        b.symbols.sets,
        SymbolKind::RoomSet,
        o.sets,
        uri,
    ) + unused_in_order(b.symbols.rooms, SymbolKind::Room, o.rooms, uri) + unused_in_order(
        b.symbols.items,
        SymbolKind::Item,
        o.items,
        uri,
    ) + unused_in_order(b.symbols.npcs, SymbolKind::Npc, o.npcs, uri) + unused_in_order(
        b.symbols.flags,
        SymbolKind::Flag,
        o.flags,
        uri,
    ) + unused_in_order(b.symbols.sets, SymbolKind::RoomSet, o.sets, uri) + metadata_in_order(
        b.symbols.rooms,
        o.rooms,
        uri,
    ) + metadata_in_order(b.symbols.items, o.items, uri) + metadata_in_order(
        b.symbols.npcs,
        o.npcs,
        uri,
    ) + world_consistency(starts_in_order(b.documents, o.documents), uri) + sequence_in_order(
        b.symbols.flags,
        o.flags,
        uri,
    )
}

impl Backend {
    /// The orders in which the maps of the engine are walked now.
    pub fn walk_orders(&self) -> (r: WalkOrders)
        ensures
            r@.enumerates(self@),
    {
        let symbols = self.symbols();
        WalkOrders {
            rooms: symbols.rooms.ids(),
            items: symbols.items.ids(),
            npcs: symbols.npcs.ids(),
            flags: symbols.flags.ids(),
            sets: symbols.sets.ids(),
            documents: self.document_uris(),
        }
    }

    /// The declarations of the player's start of the documents `uris`, in
    /// that order.
    pub fn player_starts_in_order(&self, uris: &Vec<String>) -> (r: Vec<PlayerStart>)
        ensures
            player_starts_view(r@) == starts_in_order(self@.documents, strings_view(uris@)),
    {
        let mut out: Vec<PlayerStart> = Vec::new();
        let ghost order = strings_view(uris@);
        let mut k: usize = 0;
        proof {
            assert(order.take(0) =~= Seq::<Seq<char>>::empty());
            assert(player_starts_view(out@) =~= Seq::<PlayerStartView>::empty());
        }
        while k < uris.len()
            invariant
                k <= uris.len(),
                order == strings_view(uris@),
                player_starts_view(out@) == starts_in_order(self@.documents, order.take(k as int)),
            decreases uris.len() - k,
        {
            proof {
                assert(order.take(k + 1).drop_last() =~= order.take(k as int));
                assert(order.take(k + 1).last() == uris@[k as int]@);
            }
            match self.document_state(uris[k].as_str()) {
                Some(state) => {
                    let mut part = state.player_starts;
                    let ghost a = out@;
                    let ghost b = part@;
                    out.append(&mut part);
                    proof {
                        assert(out@ == a + b);
                        assert(player_starts_view(out@) =~= player_starts_view(a)
                            + player_starts_view(b));
                    }
                },
                None => {},
            }
            k += 1;
        }
        proof {
            assert(order.take(uris.len() as int) =~= order);
        }
        out
    }

    /// The diagnostics of the document `uri` where the maps are walked in
    /// the orders `orders`.
    pub fn diagnostics_in_order(&self, uri: &str, orders: &WalkOrders) -> (r: Vec<Diagnostic>)
        ensures
            diagnostics_view(r@) == diagnostics_for(self@, uri@, orders@),
    {
        let symbols = self.symbols();
        let mut out: Vec<Diagnostic> = Vec::new();
        proof {
            assert(diagnostics_view(out@) =~= Seq::<DiagnosticView>::empty());
        }
        append_undefined_reference_diagnostics(
            &mut out,
            symbols,
            SymbolKind::Room,
            &orders.rooms,
            uri,
        );
        proof {
            assert(diagnostics_view(out@) =~= undefined_in_order(
                self@.symbols,
                SymbolKind::Room,
                orders@.rooms,
                uri@,
            ));
        }
        append_undefined_reference_diagnostics(
            &mut out,
            symbols,
            SymbolKind::Item,
            &orders.items,
            uri,
        );
        append_undefined_reference_diagnostics(
            &mut out,
            symbols,
            SymbolKind::Npc,
            &orders.npcs,
            uri,
        );
        append_undefined_reference_diagnostics(
            &mut out,
            symbols,
            SymbolKind::Flag,
            &orders.flags,
            uri,
        );
        append_undefined_reference_diagnostics(
            &mut out,
            symbols,
            SymbolKind::RoomSet,
            &orders.sets,
            uri,
        );
        append_duplicate_diagnostics_for_index(
            &mut out,
            uri,
            SymbolKind::Room,
            &symbols.rooms,
            &orders.rooms,
        );
        append_duplicate_diagnostics_for_index(
            &mut out,
            uri,
            SymbolKind::Item,
            &symbols.items,
            &orders.items,
        );
        append_duplicate_diagnostics_for_index(
            &mut out,
            uri,
            SymbolKind::Npc,
            &symbols.npcs,
            &orders.npcs,
        );
        append_duplicate_diagnostics_for_index(
            &mut out,
            uri,
            SymbolKind::Flag,
            &symbols.flags,
            &orders.flags,
        );
        append_duplicate_diagnostics_for_index(
            &mut out,
            uri,
            SymbolKind::RoomSet,
            &symbols.sets,
            &orders.sets,
        );
        append_unused_for_index(&mut out, uri, SymbolKind::Room, &symbols.rooms, &orders.rooms);
        append_unused_for_index(&mut out, uri, SymbolKind::Item, &symbols.items, &orders.items);
        append_unused_for_index(&mut out, uri, SymbolKind::Npc, &symbols.npcs, &orders.npcs);
        append_unused_for_index(&mut out, uri, SymbolKind::Flag, &symbols.flags, &orders.flags);
        append_unused_for_index(&mut out, uri, SymbolKind::RoomSet, &symbols.sets, &orders.sets);
        append_metadata_for_index(&mut out, uri, &symbols.rooms, &orders.rooms);
        append_metadata_for_index(&mut out, uri, &symbols.items, &orders.items);
        append_metadata_for_index(&mut out, uri, &symbols.npcs, &orders.npcs);
        let starts = self.player_starts_in_order(&orders.documents);
        let mut world = world_consistency_diagnostics(&starts, uri);
        let ghost a = out@;
        let ghost b = world@;
        out.append(&mut world);
        proof {
            assert(out@ == a + b);
            assert(diagnostics_view(out@) =~= diagnostics_view(a) + diagnostics_view(b));
        }
        append_flag_sequence_diagnostics(&mut out, uri, &symbols.flags, &orders.flags);
        out
    }

    /// The diagnostics of the document `uri`, or `None` where the document
    /// was not analysed. The maps of the engine are walked in an order that
    /// they do not state; the result is what [`diagnostics_for`] gives for
    /// the orders in which they were walked.
    pub fn check_diagnostics(&self, uri: &str) -> (r: Option<Vec<Diagnostic>>)
        ensures
            match r {
                Some(list) => self@.documents.contains_key(uri@) && exists|o: OrdersView|
                    #[trigger] o.enumerates(self@) && diagnostics_view(list@) == diagnostics_for(
                        self@,
                        uri@,
                        o,
                    ),
                None => !self@.documents.contains_key(uri@),
            },
    {
        if !self.has_document(uri) {
            return None;
        }
        let orders = self.walk_orders();
        let list = self.diagnostics_in_order(uri, &orders);
        proof {
            assert(orders@.enumerates(self@));
        }
        Some(list)
    }
}

} // verus!
