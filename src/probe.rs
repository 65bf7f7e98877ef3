use vstd::prelude::*;

verus! {

/// The helper macros that follow the includes: a two-level stringification
/// pair, and the marker macro that prints the marker and both of its
/// arguments as strings.
pub open spec fn helper_macros() -> Seq<char> {
    "\n#define STRINGIFY(x) #x\n#define TOSTRING(x) STRINGIFY(x)\n#define RENAMED(from, to) \"RUST_RENAMED\" TOSTRING(from) TOSTRING(to)\n"@
}

/// The probe line for one macro name. The first argument has an underscore in
/// front, so that it is no macro and stays as written; the second one is the
/// macro itself and is expanded before it is stringified.
pub open spec fn invocation(name: Seq<char>) -> Seq<char> {
    "RENAMED(_"@ + name + ", "@ + name + ")\n"@
}

/// The probe lines for `names`, in order.
pub open spec fn invocations(names: Seq<Seq<char>>) -> Seq<char>
    decreases names.len(),
{
    if names.len() == 0 {
        Seq::empty()
    } else {
        invocations(names.drop_last()) + invocation(names.last())
    }
}

/// The probe translation unit: the includes, the helper macros, and one probe
/// line for each recorded name.
pub open spec fn probe_text(includes: Seq<char>, names: Seq<Seq<char>>) -> Seq<char> {
    includes + helper_macros() + invocations(names)
}

pub open spec fn names_view(names: Seq<String>) -> Seq<Seq<char>> {
    names.map_values(|s: String| s@)
}

/// Writes the probe translation unit for `names` after the text `includes`.
pub fn probe_source(includes: &str, names: &Vec<String>) -> (r: String)
    ensures
        r@ == probe_text(includes@, names_view(names@)),
{
    let mut r = String::from_str(includes);
    r.append(
        "\n#define STRINGIFY(x) #x\n#define TOSTRING(x) STRINGIFY(x)\n#define RENAMED(from, to) \"RUST_RENAMED\" TOSTRING(from) TOSTRING(to)\n",
    );
    let ghost head = r@;
    let mut k: usize = 0;
    assert(names_view(names@).subrange(0, 0) =~= Seq::<Seq<char>>::empty());
    assert(r@ =~= head + invocations(names_view(names@).subrange(0, 0)));
    while k < names.len()
        invariant
            k <= names.len(),
            head == includes@ + helper_macros(),
            r@ == head + invocations(names_view(names@).subrange(0, k as int)),
        decreases names.len() - k,
    {
        let name = names[k].as_str();
        r.append("RENAMED(_");
        r.append(name);
        r.append(", ");
        r.append(name);
        r.append(")\n");
        let ghost done = names_view(names@).subrange(0, k + 1);
        assert(done.drop_last() =~= names_view(names@).subrange(0, k as int));
        assert(done.last() == names@[k as int]@);
        assert(r@ =~= head + invocations(done));
        k += 1;
    }
    assert(names_view(names@).subrange(0, names.len() as int) =~= names_view(names@));
    r
}

} // verus!
