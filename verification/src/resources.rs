//! The registry of server-side resources: which requests create a resource of
//! a given type, and which single request frees it.

use vstd::prelude::*;

verus! {

/// A request that creates a resource, and the field of it that carries the new id.
#[derive(Clone, Copy, Debug)]
pub struct CreateInfo {
    pub request_name: &'static str,
    pub created_argument: &'static str,
}

/// A resource type with the requests that create it and the one that frees it.
#[derive(Debug)]
pub struct ResourceInfo {
    pub resource_name: &'static str,
    pub create_requests: Vec<CreateInfo>,
    pub free_request: &'static str,
}

/// Mathematical model of a [`CreateInfo`].
pub ghost struct Creator {
    pub request_name: Seq<char>,
    pub id_field: Seq<char>,
}

/// Mathematical model of a [`ResourceInfo`].
pub ghost struct Definition {
    pub resource_type: Seq<char>,
    pub creators: Seq<Creator>,
    pub destroyer: Seq<char>,
}

impl View for CreateInfo {
    type V = Creator;

    open spec fn view(&self) -> Creator {
        Creator { request_name: self.request_name@, id_field: self.created_argument@ }
    }
}

impl View for ResourceInfo {
    type V = Definition;

    open spec fn view(&self) -> Definition {
        Definition {
            resource_type: self.resource_name@,
            creators: self.create_requests@.map_values(|c: CreateInfo| c@),
            destroyer: self.free_request@,
        }
    }
}

/// The models of a list of resources, in order.
pub open spec fn definitions(list: Seq<ResourceInfo>) -> Seq<Definition> {
    list.map_values(|r: ResourceInfo| r@)
}

pub open spec fn creator(request_name: &str, id_field: &str) -> Creator {
    Creator { request_name: request_name@, id_field: id_field@ }
}

pub open spec fn definition(
    resource_type: &str,
    creators: Seq<Creator>,
    destroyer: &str,
) -> Definition {
    Definition { resource_type: resource_type@, creators, destroyer: destroyer@ }
}

pub open spec fn xproto_definitions() -> Seq<Definition> {
    seq![
        definition("Pixmap", seq![creator("CreatePixmap", "pid")], "FreePixmap"),
        definition("Window", seq![creator("CreateWindow", "wid")], "DestroyWindow"),
        definition("Font", seq![creator("OpenFont", "fid")], "CloseFont"),
        definition("Gcontext", seq![creator("CreateGC", "cid")], "FreeGC"),
        definition("Colormap", seq![creator("CreateColormap", "mid")], "FreeColormap"),
        definition(
            "Cursor",
            seq![creator("CreateCursor", "cid"), creator("CreateGlyphCursor", "cid")],
            "FreeCursor",
        ),
    ]
}

pub open spec fn damage_definitions() -> Seq<Definition> {
    seq![definition("Damage", seq![creator("Create", "damage")], "Destroy")]
}

pub open spec fn render_definitions() -> Seq<Definition> {
    seq![
        definition(
            "Picture",
            seq![
                creator("CreatePicture", "pid"),
                creator("CreateSolidFill", "picture"),
                creator("CreateLinearGradient", "picture"),
                creator("CreateRadialGradient", "picture"),
                creator("CreateConicalGradient", "picture"),
            ],
            "FreePicture",
        ),
        definition("Glyphset", seq![creator("CreateGlyphSet", "gsid")], "FreeGlyphSet"),
    ]
}

pub open spec fn shm_definitions() -> Seq<Definition> {
    seq![definition("Seg", seq![creator("Attach", "shmseg")], "Detach")]
}

pub open spec fn sync_definitions() -> Seq<Definition> {
    seq![
        definition("Counter", seq![creator("CreateCounter", "id")], "DestroyCounter"),
        definition("Alarm", seq![creator("CreateAlarm", "id")], "DestroyAlarm"),
        definition("Fence", seq![creator("CreateFence", "fence")], "DestroyFence"),
    ]
}

pub open spec fn xfixes_definitions() -> Seq<Definition> {
    seq![
        definition(
            "Region",
            seq![
                creator("CreateRegion", "region"),
                creator("CreateRegionFromBitmap", "region"),
                creator("CreateRegionFromWindow", "region"),
                creator("CreateRegionFromGC", "region"),
                creator("CreateRegionFromPicture", "region"),
            ],
            "DestroyRegion",
        ),
    ]
}

/// The whole registry: each known extension with its resource definitions.
pub open spec fn extension_table() -> Seq<(Seq<char>, Seq<Definition>)> {
    seq![
        ("xproto"@, xproto_definitions()),
        ("composite"@, Seq::<Definition>::empty()),
        ("damage"@, damage_definitions()),
        ("dri2"@, Seq::<Definition>::empty()),
        ("dri3"@, Seq::<Definition>::empty()),
        ("glx"@, Seq::<Definition>::empty()),
        ("record"@, Seq::<Definition>::empty()),
        ("render"@, render_definitions()),
        ("shm"@, shm_definitions()),
        ("sync"@, sync_definitions()),
        ("xf86dri"@, Seq::<Definition>::empty()),
        ("xfixes"@, xfixes_definitions()),
        ("xprint"@, Seq::<Definition>::empty()),
        ("xvmc"@, Seq::<Definition>::empty()),
    ]
}

/// Whether `index` is the first row of `table` that is named `extension`.
pub open spec fn first_row(
    table: Seq<(Seq<char>, Seq<Definition>)>,
    extension: Seq<char>,
    index: int,
) -> bool {
    &&& 0 <= index < table.len()
    &&& table[index].0 == extension
    &&& forall|j: int| 0 <= j < index ==> (#[trigger] table[j]).0 != extension
}

/// The definitions of the first row named `extension`; none where no row is.
pub open spec fn lookup(table: Seq<(Seq<char>, Seq<Definition>)>, extension: Seq<char>) -> Seq<
    Definition,
> {
    if exists|i: int| first_row(table, extension, i) {
        table[choose|i: int| first_row(table, extension, i)].1
    } else {
        Seq::empty()
    }
}

/// The resource definitions of an extension; empty for an unknown one.
pub open spec fn definitions_for(extension: Seq<char>) -> Seq<Definition> {
    lookup(extension_table(), extension)
}

/// Whether two strings hold the same text.
pub fn same_text(a: &str, b: &str) -> (r: bool)
    ensures
        r == (a@ == b@),
{
    a.to_owned() == b.to_owned()
}

fn create(request_name: &'static str, created_argument: &'static str) -> (r: CreateInfo)
    ensures
        r@ == creator(request_name, created_argument),
{
    CreateInfo { request_name, created_argument }
}

fn resource(
    resource_name: &'static str,
    create_requests: Vec<CreateInfo>,
    free_request: &'static str,
) -> (r: ResourceInfo)
    ensures
        r@ == definition(
            resource_name,
            create_requests@.map_values(|c: CreateInfo| c@),
            free_request,
        ),
        r.create_requests == create_requests,
{
    ResourceInfo { resource_name, create_requests, free_request }
}

fn one(first: CreateInfo) -> (r: Vec<CreateInfo>)
    ensures
        r@.map_values(|c: CreateInfo| c@) == seq![first@],
{
    let r = vec![first];
    assert(r@.map_values(|c: CreateInfo| c@) =~= seq![first@]);
    r
}

fn and(list: Vec<CreateInfo>, next: CreateInfo) -> (r: Vec<CreateInfo>)
    ensures
        r@.map_values(|c: CreateInfo| c@) == list@.map_values(|c: CreateInfo| c@).push(next@),
{
    let mut r = list;
    r.push(next);
    assert(r@.map_values(|c: CreateInfo| c@) =~= list@.map_values(|c: CreateInfo| c@).push(
        next@,
    ));
    r
}

fn with(list: Vec<ResourceInfo>, next: ResourceInfo) -> (r: Vec<ResourceInfo>)
    ensures
        definitions(r@) == definitions(list@).push(next@),
{
    let mut r = list;
    r.push(next);
    assert(definitions(r@) =~= definitions(list@).push(next@));
    r
}

fn none() -> (r: Vec<ResourceInfo>)
    ensures
        definitions(r@) == Seq::<Definition>::empty(),
{
    let r = Vec::new();
    assert(definitions(r@) =~= Seq::<Definition>::empty());
    r
}

fn xproto_resources() -> (r: Vec<ResourceInfo>)
    ensures
        definitions(r@) == xproto_definitions(),
{
    let r = none();
    let r = with(r, resource("Pixmap", one(create("CreatePixmap", "pid")), "FreePixmap"));
    let r = with(r, resource("Window", one(create("CreateWindow", "wid")), "DestroyWindow"));
    let r = with(r, resource("Font", one(create("OpenFont", "fid")), "CloseFont"));
    let r = with(r, resource("Gcontext", one(create("CreateGC", "cid")), "FreeGC"));
    let r = with(r, resource("Colormap", one(create("CreateColormap", "mid")), "FreeColormap"));
    let cursor = and(one(create("CreateCursor", "cid")), create("CreateGlyphCursor", "cid"));
    assert(cursor@.map_values(|c: CreateInfo| c@) =~= seq![
        creator("CreateCursor", "cid"),
        creator("CreateGlyphCursor", "cid"),
    ]);
    let r = with(r, resource("Cursor", cursor, "FreeCursor"));
    assert(definitions(r@) =~= xproto_definitions());
    r
}

fn damage_resources() -> (r: Vec<ResourceInfo>)
    ensures
        definitions(r@) == damage_definitions(),
{
    with(none(), resource("Damage", one(create("Create", "damage")), "Destroy"))
}

fn render_resources() -> (r: Vec<ResourceInfo>)
    ensures
        definitions(r@) == render_definitions(),
{
    let picture = one(create("CreatePicture", "pid"));
    let picture = and(picture, create("CreateSolidFill", "picture"));
    let picture = and(picture, create("CreateLinearGradient", "picture"));
    let picture = and(picture, create("CreateRadialGradient", "picture"));
    let picture = and(picture, create("CreateConicalGradient", "picture"));
    assert(picture@.map_values(|c: CreateInfo| c@) =~= seq![
        creator("CreatePicture", "pid"),
        creator("CreateSolidFill", "picture"),
        creator("CreateLinearGradient", "picture"),
        creator("CreateRadialGradient", "picture"),
        creator("CreateConicalGradient", "picture"),
    ]);
    let r = with(none(), resource("Picture", picture, "FreePicture"));
    let r = with(r, resource("Glyphset", one(create("CreateGlyphSet", "gsid")), "FreeGlyphSet"));
    assert(definitions(r@) =~= render_definitions());
    r
}

fn shm_resources() -> (r: Vec<ResourceInfo>)
    ensures
        definitions(r@) == shm_definitions(),
{
    with(none(), resource("Seg", one(create("Attach", "shmseg")), "Detach"))
}

fn sync_resources() -> (r: Vec<ResourceInfo>)
    ensures
        definitions(r@) == sync_definitions(),
{
    let r = with(
        none(),
        resource("Counter", one(create("CreateCounter", "id")), "DestroyCounter"),
    );
    let r = with(r, resource("Alarm", one(create("CreateAlarm", "id")), "DestroyAlarm"));
    let r = with(r, resource("Fence", one(create("CreateFence", "fence")), "DestroyFence"));
    assert(definitions(r@) =~= sync_definitions());
    r
}

fn xfixes_resources() -> (r: Vec<ResourceInfo>)
    ensures
        definitions(r@) == xfixes_definitions(),
{
    let region = one(create("CreateRegion", "region"));
    let region = and(region, create("CreateRegionFromBitmap", "region"));
    let region = and(region, create("CreateRegionFromWindow", "region"));
    let region = and(region, create("CreateRegionFromGC", "region"));
    let region = and(region, create("CreateRegionFromPicture", "region"));
    assert(region@.map_values(|c: CreateInfo| c@) =~= seq![
        creator("CreateRegion", "region"),
        creator("CreateRegionFromBitmap", "region"),
        creator("CreateRegionFromWindow", "region"),
        creator("CreateRegionFromGC", "region"),
        creator("CreateRegionFromPicture", "region"),
    ]);
    with(none(), resource("Region", region, "DestroyRegion"))
}

/// The number of rows of the registry.
pub const EXTENSION_COUNT: usize = 14;

/// The name of a row of the registry.
pub fn extension_name(index: usize) -> (r: &'static str)
    requires
        index < EXTENSION_COUNT,
    ensures
        extension_table().len() == EXTENSION_COUNT,
        r@ == extension_table()[index as int].0,
{
    if index == 0 {
        "xproto"
    } else if index == 1 {
        "composite"
    } else if index == 2 {
        "damage"
    } else if index == 3 {
        "dri2"
    } else if index == 4 {
        "dri3"
    } else if index == 5 {
        "glx"
    } else if index == 6 {
        "record"
    } else if index == 7 {
        "render"
    } else if index == 8 {
        "shm"
    } else if index == 9 {
        "sync"
    } else if index == 10 {
        "xf86dri"
    } else if index == 11 {
        "xfixes"
    } else if index == 12 {
        "xprint"
    } else {
        "xvmc"
    }
}

/// The resources of a row of the registry.
pub fn extension_resources(index: usize) -> (r: Vec<ResourceInfo>)
    requires
        index < EXTENSION_COUNT,
    ensures
        definitions(r@) == extension_table()[index as int].1,
{
    if index == 0 {
        xproto_resources()
    } else if index == 2 {
        damage_resources()
    } else if index == 7 {
        render_resources()
    } else if index == 8 {
        shm_resources()
    } else if index == 9 {
        sync_resources()
    } else if index == 11 {
        xfixes_resources()
    } else {
        none()
    }
}

/// Looks an extension up in the registry: the resources of the first row with
/// that name, and no resource for a name that the registry does not hold.
pub fn for_extension(extension: &str) -> (r: Vec<ResourceInfo>)
    ensures
        definitions(r@) == definitions_for(extension@),
{
    let mut i: usize = 0;
    while i < EXTENSION_COUNT
        invariant
            i <= EXTENSION_COUNT,
            extension_table().len() == EXTENSION_COUNT,
            forall|j: int| 0 <= j < i ==> (#[trigger] extension_table()[j]).0 != extension@,
        decreases EXTENSION_COUNT - i,
    {
        if same_text(extension, extension_name(i)) {
            proof {
                lemma_first_row_is_found(extension@, i as int);
            }
            return extension_resources(i);
        }
        i += 1;
    }
    none()
}

/// The name of the request that frees a resource of type `resource_type`:
/// that of the first definition of the type, if there is one.
pub open spec fn destroyer_of(list: Seq<Definition>, resource_type: Seq<char>) -> Option<Seq<char>>
    decreases list.len(),
{
    if list.len() == 0 {
        None
    } else if list[0].resource_type == resource_type {
        Some(list[0].destroyer)
    } else {
        destroyer_of(list.drop_first(), resource_type)
    }
}

/// Finds the request that frees a resource of the given type among `list`.
pub fn free_request_for(list: &Vec<ResourceInfo>, resource_type: &str) -> (r: Option<&'static str>)
    ensures
        match r {
            Some(name) => destroyer_of(definitions(list@), resource_type@) == Some(name@),
            None => destroyer_of(definitions(list@), resource_type@) is None,
        },
{
    let ghost all = definitions(list@);
    let mut i: usize = 0;
    assert(all.subrange(0, all.len() as int) =~= all);
    while i < list.len()
        invariant
            i <= list@.len(),
            all == definitions(list@),
            destroyer_of(all, resource_type@) == destroyer_of(
                all.subrange(i as int, all.len() as int),
                resource_type@,
            ),
        decreases list@.len() - i,
    {
        let ghost rest = all.subrange(i as int, all.len() as int);
        assert(rest[0] == list@[i as int]@);
        if same_text(list[i].resource_name, resource_type) {
            return Some(list[i].free_request);
        }
        assert(rest.drop_first() =~= all.subrange(i + 1, all.len() as int));
        i += 1;
    }
    None
}

/// The definitions of an extension are those of the first row that it names.
pub proof fn lemma_first_row_is_found(extension: Seq<char>, index: int)
    requires
        first_row(extension_table(), extension, index),
    ensures
        definitions_for(extension) == extension_table()[index].1,
{
    let table = extension_table();
    let c = choose|c: int| first_row(table, extension, c);
    assert(first_row(table, extension, c));
    assert(c == index);
}

/// An extension that names no row of the registry has no resource definitions.
pub proof fn lemma_unknown_extension_is_empty(extension: Seq<char>)
    requires
        forall|i: int|
            0 <= i < extension_table().len() ==> (#[trigger] extension_table()[i]).0 != extension,
    ensures
        definitions_for(extension) == Seq::<Definition>::empty(),
{
    let table = extension_table();
    if exists|i: int| first_row(table, extension, i) {
        let i = choose|i: int| first_row(table, extension, i);
        assert(table[i].0 == extension);
    }
}

/// Every definition of the registry has at least one creating request, and no
/// two of its creating requests have the same name.
pub proof fn lemma_creators_are_unique(row: int, place: int, a: int, b: int)
    requires
        0 <= row < extension_table().len(),
        0 <= place < extension_table()[row].1.len(),
    ensures
        extension_table()[row].1[place].creators.len() >= 1,
        0 <= a < b < extension_table()[row].1[place].creators.len()
            ==> extension_table()[row].1[place].creators[a].request_name
            != extension_table()[row].1[place].creators[b].request_name,
{
    reveal_strlit("CreateCursor");
    reveal_strlit("CreateGlyphCursor");
    reveal_strlit("CreatePicture");
    reveal_strlit("CreateSolidFill");
    reveal_strlit("CreateLinearGradient");
    reveal_strlit("CreateRadialGradient");
    reveal_strlit("CreateConicalGradient");
    reveal_strlit("CreateRegion");
    reveal_strlit("CreateRegionFromBitmap");
    reveal_strlit("CreateRegionFromWindow");
    reveal_strlit("CreateRegionFromGC");
    reveal_strlit("CreateRegionFromPicture");
    assert("CreateLinearGradient"@[6] != "CreateRadialGradient"@[6]);
    assert("CreateRegionFromBitmap"@[16] != "CreateRegionFromWindow"@[16]);
    let creators = extension_table()[row].1[place].creators;
    if row == 0 && place == 5 {
        assert(creators.len() == 2);
        assert(creators[0].request_name == "CreateCursor"@);
        assert(creators[1].request_name == "CreateGlyphCursor"@);
    } else if row == 7 && place == 0 {
        assert(creators.len() == 5);
        assert(creators[0].request_name == "CreatePicture"@);
        assert(creators[1].request_name == "CreateSolidFill"@);
        assert(creators[2].request_name == "CreateLinearGradient"@);
        assert(creators[3].request_name == "CreateRadialGradient"@);
        assert(creators[4].request_name == "CreateConicalGradient"@);
    } else if row == 11 && place == 0 {
        assert(creators.len() == 5);
        assert(creators[0].request_name == "CreateRegion"@);
        assert(creators[1].request_name == "CreateRegionFromBitmap"@);
        assert(creators[2].request_name == "CreateRegionFromWindow"@);
        assert(creators[3].request_name == "CreateRegionFromGC"@);
        assert(creators[4].request_name == "CreateRegionFromPicture"@);
    } else {
        assert(creators.len() == 1);
    }
}

} // verus!
