//! What is printed of resource files.
use vstd::prelude::*;
use crate::commands::resource::maps::{
    content_flags, content_flags_below, entity_flags, flag_names_below, flags_seen, header_flags,
    MapEntity,
};
use crate::text::decimal;

verus! {

// ── Flags ───────────────────────────────────────────────────────────────────

/// The labels of an entity's flags, from the lowest bit up.
pub open spec fn entity_labels() -> Seq<Seq<char>> {
    seq![
        "allow full rotation"@,
        "stream low priority"@,
        "disable embedded collision"@,
        "lod in parent map"@,
        "lod adopt me"@,
        "static entity"@,
        "interior lod"@,
        "lod use alt fade"@,
        "under water"@,
        "doesn't touch water"@,
        "doesn't spawn peds"@,
        "cast static shadows"@,
        "cast dynamic shadows"@,
        "ignore time in child rendering"@,
        "don't render in shadows"@,
        "only render in shadows"@,
        "don't render in reflections"@,
        "only render in reflections"@,
        "don't render in water reflections"@,
        "only render in water reflections"@,
        "don't render in mirror reflections"@,
        "only render in mirror reflections"@,
        "don't render in stream"@,
        "streaming ignore"@,
        "don't cast shadows"@,
        "unk25"@,
        "unk26"@,
        "unk27"@,
        "unk28"@,
        "unk29"@,
        "unk30"@,
        "unk31"@,
    ]
}

/// The labels of a map's contents, from the lowest bit up.
pub open spec fn content_labels() -> Seq<Seq<char>> {
    seq![
        "HD"@,
        "LOD"@,
        "SLOD2+"@,
        "Interior"@,
        "SLOD"@,
        "Occlusion"@,
        "Physics"@,
        "LOD lights"@,
        "Distant lights"@,
        "Critical"@,
        "Grass"@,
    ]
}

/// The labels whose bits are set, in the order of the bits.
pub open spec fn labels_of(labels: Seq<Seq<char>>, flags: u32) -> Seq<Seq<char>>
    decreases labels.len(),
{
    if labels.len() == 0 {
        Seq::empty()
    } else if flags & (1u32 << ((labels.len() - 1) as u32)) != 0 {
        labels_of(labels.drop_last(), flags).push(labels.last())
    } else {
        labels_of(labels.drop_last(), flags)
    }
}

proof fn lemma_unknown()
    ensures
        "unk"@ + decimal(25) == "unk25"@,
        "unk"@ + decimal(26) == "unk26"@,
        "unk"@ + decimal(27) == "unk27"@,
        "unk"@ + decimal(28) == "unk28"@,
        "unk"@ + decimal(29) == "unk29"@,
        "unk"@ + decimal(30) == "unk30"@,
        "unk"@ + decimal(31) == "unk31"@,
{
    reveal_strlit("unk");
    reveal_strlit("unk25");
    reveal_strlit("unk26");
    reveal_strlit("unk27");
    reveal_strlit("unk28");
    reveal_strlit("unk29");
    reveal_strlit("unk30");
    reveal_strlit("unk31");
    reveal_with_fuel(decimal, 3);
    assert("unk"@ + decimal(25) =~= "unk25"@);
    assert("unk"@ + decimal(26) =~= "unk26"@);
    assert("unk"@ + decimal(27) =~= "unk27"@);
    assert("unk"@ + decimal(28) =~= "unk28"@);
    assert("unk"@ + decimal(29) =~= "unk29"@);
    assert("unk"@ + decimal(30) =~= "unk30"@);
    assert("unk"@ + decimal(31) =~= "unk31"@);
}

proof fn lemma_entity_labels(flags: u32, n: nat)
    requires
        n <= 32,
    ensures
        flag_names_below(flags, n) == labels_of(entity_labels().take(n as int), flags),
    decreases n,
{
    if n > 0 {
        lemma_entity_labels(flags, (n - 1) as nat);
        lemma_unknown();
        let labels = entity_labels().take(n as int);
        assert(labels.drop_last() =~= entity_labels().take(n - 1));
        assert(labels.last() == entity_labels()[n - 1]);
        assert(crate::commands::resource::maps::entity_flag((n - 1) as nat) == entity_labels()[n
            - 1]);
    }
}

proof fn lemma_content_labels(flags: u32, n: nat)
    requires
        n <= 11,
    ensures
        content_flags_below(flags, n) == labels_of(content_labels().take(n as int), flags),
    decreases n,
{
    if n > 0 {
        lemma_content_labels(flags, (n - 1) as nat);
        let labels = content_labels().take(n as int);
        assert(labels.drop_last() =~= content_labels().take(n - 1));
        assert(labels.last() == content_labels()[n - 1]);
    }
}

/// The flags of an entity are named by the thirty-two labels, bit by bit.
pub proof fn law_entity_flags_are_named_bit_by_bit(flags: u32)
    ensures
        entity_labels().len() == 32,
        entity_flags(flags) == labels_of(entity_labels(), flags),
{
    lemma_entity_labels(flags, 32);
    assert(entity_labels().take(32) =~= entity_labels());
}

/// The flags of a map's contents are named by the eleven labels, bit by bit.
pub proof fn law_content_flags_are_named_bit_by_bit(flags: u32)
    ensures
        content_labels().len() == 11,
        content_flags(flags) == labels_of(content_labels(), flags),
{
    lemma_content_labels(flags, 11);
    assert(content_labels().take(11) =~= content_labels());
}

/// The flags of a map's header are named by two labels, bit by bit.
pub proof fn law_header_flags_are_named_bit_by_bit(flags: u32)
    ensures
        header_flags(flags) == labels_of(seq!["SCRIPTED"@, "LOD"@], flags),
{
    assert(1u32 << 0u32 == 1 && 1u32 << 1u32 == 2) by (bit_vector);
    let all = seq!["SCRIPTED"@, "LOD"@];
    assert(all.drop_last() =~= seq!["SCRIPTED"@]);
    assert(all.drop_last().drop_last() =~= Seq::empty());
    reveal_with_fuel(labels_of, 3);
    assert(header_flags(flags) =~= labels_of(all, flags));
}

/// The flags that are seen are those of any entity.
pub proof fn law_seen_flags_are_those_of_any_entity(entities: Seq<MapEntity>, name: Seq<char>)
    ensures
        flags_seen(entities).contains(name) <==> exists|i: int|
            0 <= i < entities.len() && labels_of(
                entity_labels(),
                (#[trigger] entities[i]).bits.flags,
            ).contains(name),
    decreases entities.len(),
{
    if entities.len() > 0 {
        let front = entities.drop_last();
        law_seen_flags_are_those_of_any_entity(front, name);
        law_entity_flags_are_named_bit_by_bit(entities.last().bits.flags);
        assert(forall|i: int| 0 <= i < front.len() ==> front[i] == entities[i]);
        assert(entities.last() == entities[entities.len() - 1]);
        lemma_with_names(flags_seen(front), entity_flags(entities.last().bits.flags), name);
    }
}

proof fn lemma_with_names(set: Set<Seq<char>>, list: Seq<Seq<char>>, name: Seq<char>)
    ensures
        crate::commands::resource::maps::with_names(set, list).contains(name) <==> set.contains(name)
            || list.contains(name),
    decreases list.len(),
{
    if list.len() > 0 {
        let front = list.drop_last();
        lemma_with_names(set, front, name);
        assert(forall|i: int| 0 <= i < front.len() ==> front[i] == list[i]);
        assert(list.last() == list[list.len() - 1]);
    }
}

} // verus!
