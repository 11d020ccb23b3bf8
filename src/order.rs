use vstd::prelude::*;

verus! {

/// Whether the image codec recognises a file name as a format it can decode.
pub uninterp spec fn readable_image_name(name: Seq<char>) -> bool;

/// The names in the codec's natural order, where digit runs compare as numbers.
pub uninterp spec fn natural_order(names: Seq<Seq<char>>) -> Seq<Seq<char>>;

/// The characters of each name.
pub open spec fn names_view(names: Seq<String>) -> Seq<Seq<char>> {
    names.map_values(|n: String| n@)
}

/// The names whose flag is set, in their order.
pub open spec fn kept(names: Seq<Seq<char>>, flags: Seq<bool>) -> Seq<Seq<char>>
    decreases names.len(),
{
    if names.len() == 0 || flags.len() == 0 {
        Seq::empty()
    } else {
        let rest = kept(names.drop_last(), flags.drop_last());
        if flags.last() {
            rest.push(names.last())
        } else {
            rest
        }
    }
}

/// For each name, whether the codec can decode it.
pub open spec fn readable_flags(names: Seq<Seq<char>>) -> Seq<bool> {
    Seq::new(names.len(), |i: int| readable_image_name(names[i]))
}

/// The readable images among `names`, in the codec's natural order.
pub open spec fn ordered_images(names: Seq<Seq<char>>) -> Seq<Seq<char>> {
    natural_order(kept(names, readable_flags(names)))
}

/// Relies on `image::ImageFormat::from_path` and `ImageFormat::can_read`: the
/// format is told by the file name's extension alone, and whether it can be
/// read by the format alone.
#[verifier::external_body]
fn is_readable_image(name: &str) -> (r: bool)
    ensures
        r == readable_image_name(name@),
{
    match image::ImageFormat::from_path(name) {
        Ok(format) => format.can_read(),
        Err(_) => false,
    }
}

/// Relies on `alphanumeric_sort::sort_str_slice`: it rearranges the names
/// into the order of `alphanumeric_sort::compare_str`, which depends on the
/// names alone.
#[verifier::external_body]
fn sort_names(names: &mut Vec<String>)
    ensures
        names_view(final(names)@) == natural_order(names_view(old(names)@)),
        names_view(final(names)@).to_multiset() == names_view(old(names)@).to_multiset(),
{
    alphanumeric_sort::sort_str_slice(names.as_mut_slice());
}

/// Keeps the names whose flag is set, in their order.
pub fn keep_flagged(names: &Vec<String>, flags: &Vec<bool>) -> (r: Vec<String>)
    requires
        names@.len() == flags@.len(),
    ensures
        names_view(r@) == kept(names_view(names@), flags@),
{
    let mut r: Vec<String> = Vec::new();
    let mut i: usize = 0;
    while i < names.len()
        invariant
            0 <= i <= names@.len(),
            names@.len() == flags@.len(),
            names_view(r@) == kept(names_view(names@).take(i as int), flags@.take(i as int)),
        decreases names@.len() - i,
    {
        let ghost before = r@;
        if flags[i] {
            r.push(names[i].clone());
        }
        proof {
            let s = names_view(names@).take(i as int + 1);
            let f = flags@.take(i as int + 1);
            assert(s.drop_last() =~= names_view(names@).take(i as int));
            assert(f.drop_last() =~= flags@.take(i as int));
            if flags@[i as int] {
                assert(names_view(r@) =~= names_view(before).push(names@[i as int]@));
            } else {
                assert(names_view(r@) =~= names_view(before));
            }
        }
        i = i + 1;
    }
    assert(names_view(names@).take(names@.len() as int) =~= names_view(names@));
    assert(flags@.take(names@.len() as int) =~= flags@);
    r
}

/// The names that the image codec recognises as decodable images, in their
/// order; the others (text files, unknown extensions) are left out.
pub fn index_images(names: &Vec<String>) -> (r: Vec<String>)
    ensures
        names_view(r@) == kept(names_view(names@), readable_flags(names_view(names@))),
{
    let mut flags: Vec<bool> = Vec::new();
    let mut i: usize = 0;
    while i < names.len()
        invariant
            0 <= i <= names@.len(),
            flags@.len() == i,
            forall|j: int| 0 <= j < i ==> #[trigger] flags@[j] == readable_image_name(names@[j]@),
        decreases names@.len() - i,
    {
        let readable = is_readable_image(names[i].as_str());
        flags.push(readable);
        i = i + 1;
    }
    assert(flags@ =~= readable_flags(names_view(names@)));
    keep_flagged(names, &flags)
}

/// The decodable images among `names`, in natural order: the order in which
/// they are placed on the sheet.
pub fn order_images(names: &Vec<String>) -> (r: Vec<String>)
    ensures
        names_view(r@) == ordered_images(names_view(names@)),
{
    let mut r = index_images(names);
    sort_names(&mut r);
    r
}

} // verus!
