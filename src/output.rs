use vstd::prelude::*;

verus! {

/// Where every render is written.
pub open spec fn output_directory() -> Seq<char> {
    seq!['.', '/', 'o', 'u', 't', 'p', 'u', 't']
}

/// The path under the output directory of a file with the given name.
pub open spec fn output_path(filename: Seq<char>) -> Seq<char> {
    output_directory() + seq!['/'] + filename
}

/// The path of the PPM image saved under the given name.
pub open spec fn ppm_path_of(name: Seq<char>) -> Seq<char> {
    output_path(name + seq!['.', 'p', 'p', 'm'])
}

/// Puts `filename` under the output directory, so that every render lands in
/// the same place.
pub fn outfile(filename: &str) -> (r: String)
    ensures
        r@ == output_path(filename@),
{
    proof {
        reveal_strlit("./output/");
    }
    let mut s = String::from_str("./output/");
    s.append(filename);
    assert(s@ =~= output_path(filename@));
    s
}

/// The path at which an image saved under `name` is written: the name with
/// the `.ppm` extension, under the output directory.
pub fn ppm_path(name: &str) -> (r: String)
    ensures
        r@ == ppm_path_of(name@),
{
    proof {
        reveal_strlit(".ppm");
    }
    let mut file = String::from_str(name);
    file.append(".ppm");
    outfile(file.as_str())
}

} // verus!
