//! The tables the kernel looks for and where it keeps them.
use vstd::prelude::*;
use core::marker::PhantomData;
use crate::addresses::PhysicalAddress;
use crate::acpi::header::SdtTable;
use crate::acpi::xsdt::Xsdt;
use crate::acpi::madt::Madt;
use crate::acpi::mcfg::Mcfg;

verus! {

/// The kinds of system description table the kernel looks for.
pub enum Tables {
    XSDT,
    FADT,
    MCFG,
    HPET,
    MADT,
}

/// The signature a table of each kind carries.
pub open spec fn signature_of(t: Tables) -> Seq<u8> {
    match t {
        Tables::XSDT => seq![0x58u8, 0x53u8, 0x44u8, 0x54u8],
        Tables::FADT => seq![0x46u8, 0x41u8, 0x43u8, 0x50u8],
        Tables::MCFG => seq![0x4Du8, 0x43u8, 0x46u8, 0x47u8],
        Tables::HPET => seq![0x48u8, 0x50u8, 0x45u8, 0x54u8],
        Tables::MADT => seq![0x41u8, 0x50u8, 0x49u8, 0x43u8],
    }
}

impl Tables {
    /// "XSDT", "FACP", "MCFG", "HPET" or "APIC".
    pub fn get_signature(&self) -> (r: [u8; 4])
        ensures
            r@ == signature_of(*self),
    {
        let r = match self {
            Tables::XSDT => [0x58u8, 0x53u8, 0x44u8, 0x54u8],
            Tables::FADT => [0x46u8, 0x41u8, 0x43u8, 0x50u8],
            Tables::MCFG => [0x4Du8, 0x43u8, 0x46u8, 0x47u8],
            Tables::HPET => [0x48u8, 0x50u8, 0x45u8, 0x54u8],
            Tables::MADT => [0x41u8, 0x50u8, 0x49u8, 0x43u8],
        };
        assert(r@ =~= signature_of(*self));
        r
    }
}

/// The fixed ACPI description table (found, not yet read).
pub struct Fadt<P: PhysicalAddress> {
    _phantom: PhantomData<P>,
}

impl<P: PhysicalAddress> Fadt<P> {
    /// The marker that the FADT was found.
    pub fn new() -> Self {
        Fadt { _phantom: PhantomData }
    }
}

/// The FACP table (found, not yet read).
pub struct Facp<P: PhysicalAddress> {
    _phantom: PhantomData<P>,
}

impl<P: PhysicalAddress> Facp<P> {
    /// The marker that the FACP was found.
    pub fn new() -> Self {
        Facp { _phantom: PhantomData }
    }
}

/// The high precision event timer table (found, not yet read).
pub struct Hpet<P: PhysicalAddress> {
    _phantom: PhantomData<P>,
}

impl<P: PhysicalAddress> Hpet<P> {
    /// The marker that the HPET was found.
    pub fn new() -> Self {
        Hpet { _phantom: PhantomData }
    }
}

/// The tables found through the XSDT.
pub struct TableRegistry<P: PhysicalAddress> {
    pub xsdt: Xsdt<P>,
    pub fadt: Option<Fadt<P>>,
    pub madt: Option<Madt<P>>,
    pub hpet: Option<Hpet<P>>,
    pub mcfg: Option<Mcfg<P>>,
}

impl<P: PhysicalAddress> TableRegistry<P> {
    /// A registry holding the given tables.
    pub fn new(
        xsdt: Xsdt<P>,
        fadt: Option<Fadt<P>>,
        madt: Option<Madt<P>>,
        hpet: Option<Hpet<P>>,
        mcfg: Option<Mcfg<P>>,
    ) -> (r: Self)
        ensures
            r.xsdt == xsdt,
            r.fadt == fadt,
            r.madt == madt,
            r.hpet == hpet,
            r.mcfg == mcfg,
    {
        TableRegistry { xsdt, fadt, madt, mcfg, hpet }
    }
}

/// Index of the last table among `tables` with the signature of `t`.
pub open spec fn is_last_of(tables: Seq<SdtTable>, t: Tables, i: int) -> bool {
    &&& 0 <= i < tables.len()
    &&& tables[i].header.signature@ == signature_of(t)
    &&& forall|k: int| i < k < tables.len() ==> #[trigger] tables[k].header.signature@ != signature_of(t)
}

/// No table of `tables` has the signature of kind `t`.
pub open spec fn none_of(tables: Seq<SdtTable>, t: Tables) -> bool {
    forall|k: int| 0 <= k < tables.len() ==> #[trigger] tables[k].header.signature@ != signature_of(t)
}

/// Sorts the tables the XSDT lists (read from memory, in XSDT order) into a
/// registry: for each kind the last table with its signature counts; an MCFG
/// table is kept as its own type.
pub fn parse_acpi_tables<P: PhysicalAddress>(xsdt: Xsdt<P>, tables: Vec<SdtTable>, hhdm: usize) -> (r: TableRegistry<P>)
    ensures
        r.xsdt == xsdt,
        r.fadt is Some <==> !none_of(tables@, Tables::FADT),
        r.hpet is Some <==> !none_of(tables@, Tables::HPET),
        r.madt is Some <==> !none_of(tables@, Tables::MADT),
        r.mcfg is Some <==> !none_of(tables@, Tables::MCFG),
        forall|i: int| is_last_of(tables@, Tables::MADT, i) ==> (#[trigger] r.madt->0@).header == tables@[i].header
            && r.madt->0@.data == tables@[i].data@ && r.madt->0.hhdm() == hhdm,
        forall|i: int| is_last_of(tables@, Tables::MCFG, i) ==> (#[trigger] r.mcfg->0@).header == tables@[i].header
            && r.mcfg->0@.data == tables@[i].data@ && r.mcfg->0.hhdm() == hhdm,
{
    let mut fadt: Option<Fadt<P>> = None;
    let mut madt: Option<Madt<P>> = None;
    let mut hpet: Option<Hpet<P>> = None;
    let mut mcfg: Option<Mcfg<P>> = None;
    let ghost all = tables@;
    assert(all.len() == tables.len());
    let mut rest = tables;
    let mut seen: usize = 0;
    while rest.len() > 0
        invariant
            seen + rest@.len() == all.len(),
            all.len() <= usize::MAX,
            rest@ == all.subrange(seen as int, all.len() as int),
            fadt is Some <==> !none_of(all.subrange(0, seen as int), Tables::FADT),
            hpet is Some <==> !none_of(all.subrange(0, seen as int), Tables::HPET),
            madt is Some <==> !none_of(all.subrange(0, seen as int), Tables::MADT),
            mcfg is Some <==> !none_of(all.subrange(0, seen as int), Tables::MCFG),
            forall|i: int| is_last_of(all.subrange(0, seen as int), Tables::MADT, i) ==> (#[trigger] madt->0@).header
                == all[i].header && madt->0@.data == all[i].data@ && madt->0.hhdm() == hhdm,
            forall|i: int| is_last_of(all.subrange(0, seen as int), Tables::MCFG, i) ==> (#[trigger] mcfg->0@).header
                == all[i].header && mcfg->0@.data == all[i].data@ && mcfg->0.hhdm() == hhdm,
        decreases rest.len(),
    {
        let table = rest.remove(0);
        let ghost prefix = all.subrange(0, seen as int);
        let ghost next = all.subrange(0, seen + 1);
        proof {
            assert(all[seen as int] == table);
            assert(next =~= prefix.push(table));
        }
        if table.header.has_signature(Tables::get_signature(&Tables::FADT)) {
            fadt = Some(Fadt::new());
        } else if table.header.has_signature(Tables::get_signature(&Tables::MCFG)) {
            mcfg = Mcfg::new(table, hhdm);
        } else if table.header.has_signature(Tables::get_signature(&Tables::HPET)) {
            hpet = Some(Hpet::new());
        } else if table.header.has_signature(Tables::get_signature(&Tables::MADT)) {
            madt = Some(Madt::new(table, hhdm));
        }
        proof {
            lemma_signatures_distinct();
            assert forall|t: Tables| #[trigger] none_of(next, t) == (none_of(prefix, t) && next[seen as int].header.signature@ != signature_of(t)) by {
                if !none_of(prefix, t) {
                    let k = choose|k: int| 0 <= k < prefix.len() && prefix[k].header.signature@ == signature_of(t);
                    assert(next[k] == prefix[k]);
                }
            }
            assert forall|t: Tables, i: int| #[trigger] is_last_of(next, t, i) implies
                (i == seen && next[seen as int].header.signature@ == signature_of(t)) || (i < seen && is_last_of(prefix, t, i)
                    && next[seen as int].header.signature@ != signature_of(t)) by {
                if i < seen {
                    assert(next[i] == prefix[i]);
                    assert forall|k: int| i < k < prefix.len() implies #[trigger] prefix[k].header.signature@ != signature_of(t) by {
                        assert(next[k] == prefix[k]);
                    }
                }
            }
        }
        seen = seen + 1;
    }
    proof {
        assert(all.subrange(0, seen as int) =~= all);
    }
    TableRegistry { xsdt, fadt, madt, hpet, mcfg }
}

/// The five signatures differ from each other.
pub proof fn lemma_signatures_distinct()
    ensures
        forall|a: Tables, b: Tables| #[trigger] signature_of(a) == #[trigger] signature_of(b) ==> a == b,
{
    assert forall|a: Tables, b: Tables| #[trigger] signature_of(a) == #[trigger] signature_of(b) implies a == b by {
        if a != b {
            assert(signature_of(a)[0] != signature_of(b)[0] || signature_of(a)[1] != signature_of(b)[1]);
        }
    }
}

} // verus!
