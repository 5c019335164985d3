use vstd::prelude::*;

verus! {

/// The view of an optional text.
pub open spec fn opt_text(o: Option<&str>) -> Option<Seq<char>> {
    match o {
        Some(s) => Some(s@),
        None => None,
    }
}

/// A path segment: `/` followed by the text, or nothing.
pub open spec fn segment(o: Option<Seq<char>>) -> Seq<char> {
    match o {
        Some(s) => seq!['/'] + s,
        None => Seq::empty(),
    }
}

/// The tag under which an entry is stored: the namespace, then `/resource`
/// if there is a resource, then `/filename` if there is a file name.
pub open spec fn tag_text(
    namespace: Seq<char>,
    resource: Option<Seq<char>>,
    filename: Option<Seq<char>>,
) -> Seq<char> {
    namespace + segment(resource) + segment(filename)
}

/// Builds a storage tag from a namespace, an optional resource and an
/// optional file name.
pub fn make_tag(namespace: &str, resource: Option<&str>, filename: Option<&str>) -> (t: String)
    ensures
        t@ == tag_text(namespace@, opt_text(resource), opt_text(filename)),
        resource is None && filename is None ==> t@ == namespace@,
{
    let mut tag = namespace.to_owned();
    proof {
        reveal_strlit("/");
    }
    if let Some(r) = resource {
        tag.append("/");
        tag.append(r);
    }
    let ghost mid = tag@;
    assert(mid =~= namespace@ + segment(opt_text(resource)));
    if let Some(f) = filename {
        tag.append("/");
        tag.append(f);
    }
    assert(tag@ =~= tag_text(namespace@, opt_text(resource), opt_text(filename)));
    tag
}

/// The parts of a tag: without resource and file name the tag is the
/// namespace itself, and each part that is there adds `/` and the part, the
/// resource before the file name.
pub proof fn lemma_tag_is_namespace_then_parts(
    namespace: Seq<char>,
    resource: Seq<char>,
    filename: Seq<char>,
)
    ensures
        tag_text(namespace, None, None) == namespace,
        tag_text(namespace, Some(resource), None) == namespace + seq!['/'] + resource,
        tag_text(namespace, None, Some(filename)) == namespace + seq!['/'] + filename,
        tag_text(namespace, Some(resource), Some(filename)) == namespace + seq!['/'] + resource
            + seq!['/'] + filename,
        tag_text(namespace, None, None).len() == namespace.len(),
        tag_text(namespace, Some(resource), Some(filename)).len() == namespace.len()
            + resource.len() + filename.len() + 2,
{
    assert(tag_text(namespace, None, None) =~= namespace);
    assert(tag_text(namespace, Some(resource), None) =~= namespace + seq!['/'] + resource);
    assert(tag_text(namespace, None, Some(filename)) =~= namespace + seq!['/'] + filename);
    assert(tag_text(namespace, Some(resource), Some(filename)) =~= namespace + seq!['/'] + resource
        + seq!['/'] + filename);
}

/// Every tag made for a namespace begins with that namespace, so removing
/// all tags with the namespace as prefix removes every tag set under it.
pub proof fn lemma_tag_starts_with_namespace(
    namespace: Seq<char>,
    resource: Option<Seq<char>>,
    filename: Option<Seq<char>>,
)
    ensures
        namespace.is_prefix_of(tag_text(namespace, resource, filename)),
{
    let t = tag_text(namespace, resource, filename);
    assert(t.subrange(0, namespace.len() as int) =~= namespace);
}

/// The tag of a file of a resource is the resource's tag followed by `/` and
/// the file name.
pub proof fn lemma_file_tag_extends_resource_tag(
    namespace: Seq<char>,
    resource: Seq<char>,
    filename: Seq<char>,
)
    ensures
        tag_text(namespace, Some(resource), Some(filename)) == tag_text(
            namespace,
            Some(resource),
            None,
        ) + seq!['/'] + filename,
{
    assert(tag_text(namespace, Some(resource), Some(filename)) =~= tag_text(
        namespace,
        Some(resource),
        None,
    ) + seq!['/'] + filename);
}

/// No character of the text is `/`.
pub open spec fn has_no_slash(s: Seq<char>) -> bool {
    forall|i: int| 0 <= i < s.len() ==> s[i] != '/'
}

/// The resource that a resource tag of the namespace names: the tag must be
/// the namespace, `/`, and a non-empty name without `/`.
pub open spec fn resource_in_tag(namespace: Seq<char>, tag: Seq<char>) -> Option<Seq<char>> {
    let n = namespace.len() as int;
    if tag.len() > n + 1 && tag.subrange(0, n) == namespace && tag[n] == '/' && has_no_slash(
        tag.subrange(n + 1, tag.len() as int),
    ) {
        Some(tag.subrange(n + 1, tag.len() as int))
    } else {
        None
    }
}

/// Reads the resource out of a resource tag of the namespace.
pub fn resource_of_tag(namespace: &str, tag: &str) -> (r: Option<String>)
    ensures
        match r {
            Some(res) => resource_in_tag(namespace@, tag@) == Some(res@),
            None => resource_in_tag(namespace@, tag@) is None,
        },
{
    let n = namespace.unicode_len();
    let t = tag.unicode_len();
    if t <= n || t - n <= 1 {
        return None;
    }
    let mut i: usize = 0;
    while i < n
        invariant
            n == namespace@.len(),
            t == tag@.len(),
            n < t,
            0 <= i <= n,
            forall|j: int| 0 <= j < i ==> tag@[j] == namespace@[j],
        decreases n - i,
    {
        if tag.get_char(i) != namespace.get_char(i) {
            proof {
                assert(tag@.subrange(0, n as int)[i as int] != namespace@[i as int]);
            }
            return None;
        }
        i = i + 1;
    }
    assert(tag@.subrange(0, n as int) =~= namespace@);
    if tag.get_char(n) != '/' {
        return None;
    }
    let mut j: usize = n + 1;
    while j < t
        invariant
            n == namespace@.len(),
            t == tag@.len(),
            n + 1 < t,
            n + 1 <= j <= t,
            forall|k: int| n + 1 <= k < j ==> tag@[k] != '/',
        decreases t - j,
    {
        if tag.get_char(j) == '/' {
            proof {
                assert(tag@.subrange(n + 1, t as int)[j - (n + 1)] == '/');
            }
            return None;
        }
        j = j + 1;
    }
    Some(tag.substring_char(n + 1, t).to_owned())
}

/// A resource tag is read back as the resource it was made for, when the
/// resource's name is not empty and holds no `/`.
pub proof fn lemma_resource_tag_round_trip(namespace: Seq<char>, resource: Seq<char>)
    requires
        resource.len() > 0,
        has_no_slash(resource),
    ensures
        resource_in_tag(namespace, tag_text(namespace, Some(resource), None)) == Some(resource),
{
    let t = tag_text(namespace, Some(resource), None);
    let n = namespace.len() as int;
    assert(t.subrange(0, n) =~= namespace);
    assert(t.subrange(n + 1, t.len() as int) =~= resource);
}

} // verus!
